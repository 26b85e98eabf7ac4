use vstd::prelude::*;

use crate::region::{ExitMeta, MemoryMeta, Region, RegionList, RegionMeta, SerialMeta};

verus! {

/// Address of the serial output port.
pub const SERIAL_OUT: usize = 0x6969;

/// Address of the exit port.
pub const EXIT: usize = 0x6970;

/// Bytes of RAM in the simple machine.
pub const RAM_SIZE: usize = 4096 * 4096;

/// Initial stack pointer.
pub const STACK_BASE: usize = RAM_SIZE - 0x1000;

/// What a machine profile hands the CPU: its initial stack pointer and its region map.
pub struct Setup {
    pub sp: usize,
    pub layout: RegionList,
}

/// The regions of the simple machine over a RAM of `len` bytes.
pub open spec fn simple_layout(len: int) -> Seq<Region> {
    seq![
        Region { meta: RegionMeta::Memory, addr: 0, size: SERIAL_OUT },
        Region { meta: RegionMeta::Serial, addr: SERIAL_OUT, size: 1 },
        Region { meta: RegionMeta::Exit, addr: EXIT, size: 1 },
        Region { meta: RegionMeta::Memory, addr: (EXIT + 1) as usize, size: (len - (EXIT + 1)) as usize },
    ]
}

/// Pads `ram` with zeros up to `RAM_SIZE` and lays out the simple machine over it: RAM,
/// the serial port, a gap, the exit port, and RAM to the end.
pub fn setup(ram: &mut Vec<u8>) -> (r: Setup)
    ensures
        final(ram)@.len() == if old(ram)@.len() < RAM_SIZE { RAM_SIZE as nat } else { old(ram)@.len() },
        final(ram)@.take(old(ram)@.len() as int) == old(ram)@,
        forall|i: int| old(ram)@.len() <= i < final(ram)@.len() ==> #[trigger] final(ram)@[i] == 0,
        r.sp == STACK_BASE,
        r.layout.0@ == simple_layout(final(ram)@.len() as int),
        r.layout.wf(),
        r.layout.within(final(ram)@.len()),
{
    let len = ram.len();
    if len < RAM_SIZE {
        let mut i: usize = len;
        while i < RAM_SIZE
            invariant
                len <= i <= RAM_SIZE,
                ram@.len() == i,
                ram@.take(len as int) == old(ram)@,
                len == old(ram)@.len(),
                forall|k: int| len <= k < i ==> #[trigger] ram@[k] == 0,
            decreases RAM_SIZE - i,
        {
            ram.push(0);
            i = i + 1;
            assert(ram@.take(len as int) =~= old(ram)@);
        }
    } else {
        assert(ram@.take(len as int) =~= old(ram)@);
    }
    let total = ram.len();
    let high = total - (EXIT + 1);
    let layout = RegionList(
        vec![
            Region { meta: MemoryMeta::new(), addr: 0, size: SERIAL_OUT },
            Region { meta: SerialMeta::new(), addr: SERIAL_OUT, size: 1 },
            Region { meta: ExitMeta::new(), addr: EXIT, size: 1 },
            Region { meta: MemoryMeta::new(), addr: EXIT + 1, size: high },
        ],
    );
    assert(layout.0@ =~= simple_layout(total as int));
    Setup { sp: STACK_BASE, layout }
}

/// The simple machine maps every address below the end of RAM but the six between the
/// serial port and the exit port, and none beyond.
pub proof fn lemma_simple_covers(l: RegionList, len: int, a: int)
    requires
        len >= EXIT + 1,
        len <= usize::MAX,
        l.0@ == simple_layout(len),
    ensures
        l.covers(a) <==> (0 <= a < len && !(SERIAL_OUT + 1 <= a < EXIT)),
{
    if 0 <= a < len && !(SERIAL_OUT + 1 <= a < EXIT) {
        if a < SERIAL_OUT {
            assert(l.0@[0].contains(a));
        } else if a == SERIAL_OUT {
            assert(l.0@[1].contains(a));
        } else if a == EXIT {
            assert(l.0@[2].contains(a));
        } else {
            assert(l.0@[3].contains(a));
        }
    }
}

} // verus!
