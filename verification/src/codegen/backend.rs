//! The register backend: which register holds which value.
//!
//! Registers are handed out greedily and never taken back. Scratch registers
//! are numbered from zero without bound; nothing is spilled to memory and no
//! register file is enforced.

use crate::codegen::inst::Reg;
use crate::program::same_value;
use koopa::ir::Value;
use vstd::prelude::*;

verus! {

/// The state of a register backend: the register of each value that has one,
/// and the number of the next unused scratch register.
pub struct RegisterMap {
    pub assigned: Map<Value, Reg>,
    pub next: nat,
}

impl RegisterMap {
    /// The state in which no value has a register.
    pub open spec fn empty() -> RegisterMap {
        RegisterMap { assigned: Map::empty(), next: 0 }
    }

    /// The register of a value, if it has one.
    pub open spec fn lookup(self, value: Value) -> Option<Reg> {
        if self.assigned.contains_key(value) {
            Some(self.assigned[value])
        } else {
            None
        }
    }

    /// Whether a hint can be followed: it names a scratch register that was
    /// handed out before. The zero register and the return-value register are
    /// never handed out.
    pub open spec fn reusable(self, hint: Option<Reg>) -> bool {
        hint matches Some(Reg::Temp(n)) && n < self.next
    }

    /// The state after a register was allocated for a value, and that register.
    ///
    /// A value that has a register keeps it. Otherwise the value gets the
    /// hinted register if the hint can be followed, and else the next unused
    /// scratch register.
    pub open spec fn allocate(self, value: Value, hint: Option<Reg>) -> (RegisterMap, Reg) {
        if self.assigned.contains_key(value) {
            (self, self.assigned[value])
        } else if self.reusable(hint) {
            (RegisterMap { assigned: self.assigned.insert(value, hint->0), next: self.next }, hint->0)
        } else {
            (
                RegisterMap {
                    assigned: self.assigned.insert(value, Reg::Temp(self.next as usize)),
                    next: self.next + 1,
                },
                Reg::Temp(self.next as usize),
            )
        }
    }

    /// Whether every assigned register is a scratch register that was handed
    /// out: its number is below that of the next unused one.
    pub open spec fn consistent(self) -> bool {
        forall|value: Value| #[trigger]
            self.assigned.contains_key(value) ==> (self.assigned[value] matches Reg::Temp(n) && n
                < self.next)
    }

    /// Whether no value holds the register.
    pub open spec fn unused(self, reg: Reg) -> bool {
        forall|value: Value| #[trigger]
            self.assigned.contains_key(value) ==> self.assigned[value] != reg
    }
}

/// Allocation keeps a register map consistent, whatever the hint, and never
/// lowers the number of the next unused scratch register. The register it
/// returns is a scratch register that was handed out. Where the value had no
/// register and the hint cannot be followed, the register was held by no
/// value before, as long as its number fits the machine word.
pub proof fn lemma_allocate(regs: RegisterMap, value: Value, hint: Option<Reg>)
    requires
        regs.consistent(),
    ensures
        regs.allocate(value, hint).0.consistent(),
        regs.allocate(value, hint).0.next >= regs.next,
        regs.allocate(value, hint).0.lookup(value) == Some(regs.allocate(value, hint).1),
        (regs.allocate(value, hint).1 matches Reg::Temp(n) && n < regs.allocate(value, hint).0.next),
        regs.lookup(value) is None && !regs.reusable(hint) && regs.next <= usize::MAX
            ==> regs.unused(regs.allocate(value, hint).1),
{
}

/// A register backend for one pass of code generation.
pub struct RegisterBackend {
    entries: Vec<(Value, Reg)>,
    next_temp: usize,
    assigned: Ghost<Map<Value, Reg>>,
}

impl View for RegisterBackend {
    type V = RegisterMap;

    closed spec fn view(&self) -> RegisterMap {
        RegisterMap { assigned: self.assigned@, next: self.next_temp as nat }
    }
}

impl RegisterBackend {
    /// The invariant of the backend: the entries are the assignments, one
    /// entry for each value; no more scratch registers were handed out than
    /// there are entries; and the assignments are consistent.
    pub closed spec fn wf(&self) -> bool {
        &&& self.next_temp <= self.entries@.len()
        &&& forall|i: int|
            0 <= i < self.entries@.len() ==> {
                &&& self.assigned@.contains_key((#[trigger] self.entries@[i]).0)
                &&& self.assigned@[self.entries@[i].0] == self.entries@[i].1
            }
        &&& forall|value: Value| #[trigger]
            self.assigned@.contains_key(value) ==> exists|i: int|
                0 <= i < self.entries@.len() && (#[trigger] self.entries@[i]).0 == value
        &&& self@.consistent()
    }

    /// A well-formed backend has a consistent register map, whose scratch
    /// register numbers fit the machine word.
    pub proof fn lemma_wf(&self)
        requires
            self.wf(),
        ensures
            self@.consistent(),
            self@.next <= usize::MAX,
    {
    }

    /// A backend in which no value has a register.
    pub fn new() -> (backend: RegisterBackend)
        ensures
            backend.wf(),
            backend@ == RegisterMap::empty(),
    {
        RegisterBackend { entries: Vec::new(), next_temp: 0, assigned: Ghost(Map::empty()) }
    }

    /// The register of a value that was generated before, or `None`.
    pub fn lookup(&self, value: Value) -> (reg: Option<Reg>)
        requires
            self.wf(),
        ensures
            reg == self@.lookup(value),
    {
        let mut i: usize = 0;
        while i < self.entries.len()
            invariant
                self.wf(),
                i <= self.entries@.len(),
                forall|j: int| 0 <= j < i ==> (#[trigger] self.entries@[j]).0 != value,
            decreases self.entries@.len() - i,
        {
            if same_value(self.entries[i].0, value) {
                return Some(self.entries[i].1);
            }
            i += 1;
        }
        None
    }

    /// Assigns a register to a value and returns it.
    ///
    /// A value that has a register keeps it. Otherwise a hint is followed if
    /// it names a scratch register that was handed out before; else the value
    /// gets the next unused scratch register.
    pub fn allocate(&mut self, value: Value, hint: Option<Reg>) -> (reg: Reg)
        requires
            old(self).wf(),
        ensures
            final(self).wf(),
            (final(self)@, reg) == old(self)@.allocate(value, hint),
    {
        if let Some(reg) = self.lookup(value) {
            return reg;
        }
        let ghost before = self.entries@;
        let ghost regs = self@;
        let reuse = match hint {
            Some(Reg::Temp(n)) => n < self.next_temp,
            _ => false,
        };
        let reg = if reuse {
            hint.unwrap()
        } else {
            Reg::Temp(self.next_temp)
        };
        self.entries.push((value, reg));
        self.assigned = Ghost(self.assigned@.insert(value, reg));
        if !reuse {
            assert(self.entries.len() == before.len() + 1);
            self.next_temp = self.next_temp + 1;
        }
        proof {
            lemma_allocate(regs, value, hint);
            assert forall|v: Value| #[trigger] self.assigned@.contains_key(v) implies exists|i: int|
                0 <= i < self.entries@.len() && (#[trigger] self.entries@[i]).0 == v by {
                if v == value {
                    assert(self.entries@[before.len() as int].0 == value);
                } else {
                    let i = choose|i: int| 0 <= i < before.len() && (#[trigger] before[i]).0 == v;
                    assert(self.entries@[i].0 == v);
                }
            }
        }
        reg
    }
}

} // verus!
