use vstd::prelude::*;

use std::collections::HashSet;

use crate::text::{digits, padded, push_digits, push_padded};
use crate::vm::{Fault, Halt, VM, disasm_at, step};

verus! {

broadcast use vstd::std_specs::hash::group_hash_axioms;

/// `v` as eight upper-case hex digits.
pub open spec fn hex8(v: i32) -> Seq<char> {
    padded(digits(v as u32 as nat, 16), 8)
}

/// `xN=VVVVVVVV`, with the register number left-aligned in two columns.
pub open spec fn reg_cell(i: nat, v: i32) -> Seq<char> {
    let n = digits(i, 10);
    "x"@ + (if n.len() < 2 { n + " "@ } else { n }) + "="@ + hex8(v)
}

/// What goes before register `i`: nothing before the first, a line break before each
/// eighth, a space otherwise.
pub open spec fn reg_sep(i: nat) -> Seq<char> {
    if i == 0 {
        Seq::empty()
    } else if i % 8 == 0 {
        " \n"@
    } else {
        " "@
    }
}

/// The first `n` registers, eight to a line.
pub open spec fn reg_cells(regs: Seq<i32>, n: nat) -> Seq<char>
    decreases n,
{
    if n == 0 {
        Seq::empty()
    } else {
        reg_cells(regs, (n - 1) as nat) + reg_sep((n - 1) as nat) + reg_cell(
            (n - 1) as nat,
            regs[n - 1],
        )
    }
}

/// The `info regs` listing.
pub open spec fn regs_listing(ip: i32, regs: Seq<i32>) -> Seq<char> {
    "IP="@ + hex8(ip) + "\n"@ + reg_cells(regs, 32) + "\n"@
}

/// An interactive debugger: the CPU it drives and the addresses it stops at.
pub struct Dbg {
    pub breakpoints: HashSet<u32>,
    pub vm: VM,
}

impl Dbg {
    /// The debugger's breakpoint at the current instruction, if there is one.
    pub open spec fn at_breakpoint(&self) -> bool {
        self.breakpoints@.contains(self.vm.ip as u32)
    }

    pub fn new(vm: VM) -> (r: Self)
        ensures
            r.vm == vm,
            r.breakpoints@ == Set::<u32>::empty(),
    {
        Self { vm, breakpoints: HashSet::new() }
    }

    /// Executes exactly one instruction.
    pub fn next(&mut self) -> (r: Result<(), Halt>)
        requires
            old(self).vm.wf(),
        ensures
            final(self).vm.wf(),
            final(self).vm.regions == old(self).vm.regions,
            final(self).breakpoints@ == old(self).breakpoints@,
            (final(self).vm.state(), r) == step(old(self).vm.regions, old(self).vm.state()),
    {
        self.vm.next()
    }

    /// One round of `continue`: at a breakpoint it stops and returns `Ok(true)` without
    /// executing anything; elsewhere it executes one instruction and returns `Ok(false)`,
    /// or how that instruction halted. Repeating it while it returns `Ok(false)` runs to the
    /// next breakpoint.
    pub fn continue_step(&mut self) -> (r: Result<bool, Halt>)
        requires
            old(self).vm.wf(),
        ensures
            final(self).vm.wf(),
            final(self).vm.regions == old(self).vm.regions,
            final(self).breakpoints@ == old(self).breakpoints@,
            old(self).at_breakpoint() ==> r == Ok::<bool, Halt>(true) && final(self).vm.state()
                == old(self).vm.state(),
            !old(self).at_breakpoint() ==> ({
                let (m, s) = step(old(self).vm.regions, old(self).vm.state());
                &&& final(self).vm.state() == m
                &&& r == match s {
                    Ok(()) => Ok::<bool, Halt>(false),
                    Err(h) => Err(h),
                }
            }),
    {
        if self.breakpoints.contains(&(self.vm.ip as u32)) {
            return Ok(true);
        }
        match self.next() {
            Ok(()) => Ok(false),
            Err(h) => Err(h),
        }
    }

    /// Adds a breakpoint at `addr`; returns whether it is new.
    pub fn add_breakpoint(&mut self, addr: u32) -> (r: bool)
        ensures
            final(self).breakpoints@ == old(self).breakpoints@.insert(addr),
            r == !old(self).breakpoints@.contains(addr),
            final(self).vm == old(self).vm,
    {
        self.breakpoints.insert(addr)
    }

    /// Removes the breakpoint at `addr`; returns whether there was one.
    pub fn remove_breakpoint(&mut self, addr: u32) -> (r: bool)
        ensures
            final(self).breakpoints@ == old(self).breakpoints@.remove(addr),
            r == old(self).breakpoints@.contains(addr),
            final(self).vm == old(self).vm,
    {
        self.breakpoints.remove(&addr)
    }

    /// The prompt line: the current `ip` in eight hex digits, `>`, and the instruction there.
    pub fn disasm(&self) -> (r: Result<String, Fault>)
        requires
            self.vm.wf(),
        ensures
            match r {
                Ok(s) => exists|t: Seq<char>|
                    disasm_at(self.vm.regions, self.vm.ram@, self.vm.ip as u32 as int, self.vm.ip)
                        == Ok::<Seq<char>, Fault>(t) && s@ == padded(digits(self.vm.ip as u32 as nat, 16), 8)
                        + ">"@ + t,
                Err(f) => disasm_at(self.vm.regions, self.vm.ram@, self.vm.ip as u32 as int, self.vm.ip)
                    == Err::<Seq<char>, Fault>(f),
            },
    {
        let line = self.vm.disasm(self.vm.ip())?;
        let mut s = String::new();
        push_padded(&mut s, self.vm.ip as u32, 16, 8);
        s.append(">");
        s.append(line.as_str());
        assert(s@ =~= padded(digits(self.vm.ip as u32 as nat, 16), 8) + ">"@ + line@);
        Ok(s)
    }

    /// The `info regs` listing: `ip`, then the 32 registers in hex, eight to a line.
    pub fn info_regs(&self) -> (r: String)
        ensures
            r@ == regs_listing(self.vm.ip, self.vm.regs@),
    {
        let mut s = String::from_str("IP=");
        push_padded(&mut s, self.vm.ip as u32, 16, 8);
        s.append("\n");
        let ghost head = s@;
        let mut i: usize = 0;
        assert(s@ =~= head + reg_cells(self.vm.regs@, 0));
        while i < 32
            invariant
                i <= 32,
                s@ == head + reg_cells(self.vm.regs@, i as nat),
            decreases 32 - i,
        {
            let ghost before = s@;
            if i > 0 {
                if i % 8 == 0 {
                    s.append(" \n");
                } else {
                    s.append(" ");
                }
            }
            s.append("x");
            push_digits(&mut s, i as u32, 10);
            if i < 10 {
                s.append(" ");
            }
            s.append("=");
            push_padded(&mut s, self.vm.regs[i] as u32, 16, 8);
            proof {
                let n = digits(i as nat, 10);
                if i >= 10 {
                    assert(n == digits((i / 10) as nat, 10).push(
                        crate::text::digit_char((i % 10) as int),
                    ));
                }
                assert(s@ =~= before + reg_sep(i as nat) + reg_cell(i as nat, self.vm.regs@[i as int]));
            }
            i = i + 1;
        }
        s.append("\n");
        s
    }
}

} // verus!
