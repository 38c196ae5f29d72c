//! Verification of a forked child's execution.
//!
//! A fork duplicates the parent's memory at other addresses, so pointers that were in memory at
//! the time of the fork are stale in the child. They do not fault: the parent's memory is still
//! mapped. Until the child replaces its image or exits it is single-stepped, and before each
//! instruction runs:
//!
//! 1. If the instruction pointer is an address of the parent, it is translated, together with the
//!    frame pointer, and the stack slot a `ret` took it from is healed.
//! 2. If the instruction reads or writes through a register that holds an address of the parent,
//!    that register is translated and the instruction is tried again; a write that cannot be
//!    repaired kills the child.
//! 3. If the instruction calls or jumps through a memory slot of the child that holds an address of
//!    the parent, the slot is healed.
//! 4. If it calls or jumps through a register that was loaded from such a slot, possibly with
//!    constants added since, that slot is healed.
//!
//! A repair only ever substitutes the translation of the value it replaces, and only ever writes
//! to memory of the child.

use crate::instruction;
use crate::instruction::{Instruction, RegisterUse};
use crate::memory;
use crate::relocations;
use crate::relocations::AddressRelocations;
use vstd::prelude::*;

verus! {

/// The trap flag: while set, the processor traps after every instruction.
pub const EFLAGS_TF: u32 = 0x100;

/// The length of the longest instruction.
pub const MAX_INSTRUCTION_LEN: usize = 15;

/// The alignment every pointer into the heap has. A value without it that was loaded from memory
/// is an ordinary number that happens to look like an address.
pub const MIN_POINTER_ALIGN: u64 = 16;

/// The registers of a trapped thread.
#[derive(Debug, Clone, Copy, PartialEq, Eq)]
pub struct ThreadRegisters {
    /// The general registers, by hardware number.
    pub gpr: [u64; 16],
    pub rip: u64,
    pub eflags: u32,
}

/// The registers of a thread, the general ones as a sequence.
#[verifier::ext_equal]
pub struct RegistersView {
    pub gpr: Seq<u64>,
    pub rip: u64,
    pub eflags: u32,
}

impl View for ThreadRegisters {
    type V = RegistersView;

    open spec fn view(&self) -> RegistersView {
        RegistersView { gpr: self.gpr@, rip: self.rip, eflags: self.eflags }
    }
}

/// Where the value in a register came from: it is the word that was read from `load_address`, plus
/// the constants that were added to it since.
#[derive(Debug, Clone, Copy, PartialEq, Eq, Structural)]
pub struct LastLoad {
    pub load_address: u64,
    /// The word as it was read.
    pub loaded_value: u64,
    /// The full register that carries the value.
    pub register: u32,
    /// The sum of the constants added since.
    pub offset: i64,
}

/// A word to be written into the child's memory.
#[derive(Debug, Clone, Copy, PartialEq, Eq, Structural)]
pub struct Heal {
    pub address: u64,
    pub value: u64,
}

/// What was decided about a trapped instruction.
#[derive(Debug, Clone, Copy, PartialEq, Eq, Structural)]
pub enum StepOutcome {
    /// The child resumes.
    Continue,
    /// The child is about to execute at, or write through, a stale pointer and must be killed.
    StalePointer { address: u64, is_write: bool },
}

/// What to do next about a trapped instruction.
#[derive(Debug, Clone, Copy, PartialEq, Eq, Structural)]
pub enum StepAction {
    /// Write the heal, if there is one; the step is over.
    Finish { outcome: StepOutcome, heal: Option<Heal> },
    /// Read the word at `slot` and continue with [`on_return_slot`].
    ReadReturnSlot { slot: u64, stale: u64, translated: u64 },
    /// Read the code at `address`, decode it and continue with [`on_code`].
    ReadCode { address: u64 },
    /// Read the word at `address` and continue with [`on_target`].
    ReadTarget { address: u64 },
    /// Write the heal, if there is one, read the word at `address` and continue with [`on_load`].
    ReadLoad { heal: Option<Heal>, address: u64 },
}

/// The value of register operand `u`: of a 32-bit register the low half, of any other part of a
/// general register the whole register, and of other registers nothing.
pub open spec fn register_value_of(u: RegisterUse, regs: RegistersView) -> Option<u64> {
    if !instruction::is_general(u.full) {
        None
    } else {
        let v = regs.gpr[u.full - instruction::REGISTER_RAX];
        if u.size == 4 {
            Some((v as u32) as u64)
        } else {
            Some(v)
        }
    }
}

/// The registers with general register `full` set to `value`.
pub open spec fn with_register(regs: RegistersView, full: u32, value: u64) -> RegistersView {
    if instruction::is_general(full) {
        RegistersView {
            gpr: regs.gpr.update(full - instruction::REGISTER_RAX, value),
            ..regs
        }
    } else {
        regs
    }
}

/// Whether a base register takes no part in the address: there is none, or the displacement is
/// already absolute.
pub open spec fn is_absolute_base(register: u32) -> bool {
    register == instruction::REGISTER_NONE || register == instruction::REGISTER_RIP || register
        == instruction::REGISTER_EIP
}

/// The sum of two words, modulo 2^64.
pub open spec fn wrapping_sum(a: u64, b: u64) -> u64 {
    ((a + b) % 0x1_0000_0000_0000_0000) as u64
}

/// The product of two words, modulo 2^64.
pub open spec fn wrapping_product(a: u64, b: u64) -> u64 {
    ((a * b) % 0x1_0000_0000_0000_0000) as u64
}

/// The effective address of the instruction's explicit memory operand, if it has one whose
/// registers are general.
pub open spec fn operand_address(
    i: instruction::InstructionView,
    regs: RegistersView,
) -> Option<u64> {
    if !i.kinds.contains(instruction::KIND_MEMORY) {
        None
    } else {
        let based = if is_absolute_base(i.registers.base.register) {
            Some(i.operation.displacement)
        } else {
            match register_value_of(i.registers.base, regs) {
                Some(b) => Some(wrapping_sum(i.operation.displacement, b)),
                None => None,
            }
        };
        match based {
            None => None,
            Some(a) => if i.registers.index.register == instruction::REGISTER_NONE {
                Some(a)
            } else {
                match register_value_of(i.registers.index, regs) {
                    Some(x) => Some(
                        wrapping_sum(a, wrapping_product(x, i.operation.scale as u64)),
                    ),
                    None => None,
                }
            },
        }
    }
}

/// Whether the instruction writes memory.
pub open spec fn writes_memory(i: instruction::InstructionView) -> bool {
    exists|j: int|
        0 <= j < i.memory.len() && instruction::writes((#[trigger] i.memory[j]).access)
}

/// The address the instruction writes to: that of its explicit memory operand, or else of its
/// implicit stack access.
pub open spec fn write_address(
    i: instruction::InstructionView,
    regs: RegistersView,
) -> Option<u64> {
    if !writes_memory(i) {
        None
    } else {
        match operand_address(i, regs) {
            Some(a) => Some(a),
            None => {
                let first = i.memory[0];
                if first.base == instruction::REGISTER_RSP || first.base
                    == instruction::REGISTER_RBP {
                    Some(
                        wrapping_sum(
                            regs.gpr[first.base - instruction::REGISTER_RAX],
                            first.displacement,
                        ),
                    )
                } else {
                    None
                }
            },
        }
    }
}

/// The registers after one address-forming register has been translated, and whether it was.
pub open spec fn repair_register(
    u: RegisterUse,
    regs: RegistersView,
    map: Seq<relocations::RelocatedRange>,
) -> (RegistersView, bool) {
    if is_absolute_base(u.register) {
        (regs, false)
    } else {
        match register_value_of(u, regs) {
            None => (regs, false),
            Some(v) => match relocations::translation(map, v) {
                None => (regs, false),
                Some(t) => (with_register(regs, u.full, t), true),
            },
        }
    }
}

/// The registers after the base and then the index register of the memory operand have been
/// translated, once for each memory operand from operand `from` on, and whether any was.
pub open spec fn repaired(
    i: instruction::InstructionView,
    regs: RegistersView,
    map: Seq<relocations::RelocatedRange>,
    from: int,
) -> (RegistersView, bool)
    decreases i.kinds.len() - from,
{
    if from < 0 || from >= i.kinds.len() {
        (regs, false)
    } else if i.kinds[from] != instruction::KIND_MEMORY {
        repaired(i, regs, map, from + 1)
    } else {
        let base = repair_register(i.registers.base, regs, map);
        let index = repair_register(i.registers.index, base.0, map);
        let rest = repaired(i, index.0, map, from + 1);
        (rest.0, base.1 || index.1 || rest.1)
    }
}

/// The constant that the instruction adds to `register`, if that is all it does to it: an `add` or
/// `sub` of an immediate, or a `lea` of the register plus a displacement.
pub open spec fn constant_delta(i: instruction::InstructionView, register: u32) -> Option<i64> {
    let o = i.operation;
    let onto_register = i.kinds.len() == 2 && i.kinds[0] == instruction::KIND_REGISTER
        && i.registers.op0.full == register;
    if !onto_register {
        None
    } else if o.mnemonic == instruction::MNEMONIC_ADD || o.mnemonic == instruction::MNEMONIC_SUB {
        let imm: Option<i64> = if i.kinds[1] == instruction::KIND_IMMEDIATE8 {
            Some((o.immediate8 as i8) as i64)
        } else if i.kinds[1] == instruction::KIND_IMMEDIATE8TO64 {
            Some(o.immediate8to64)
        } else if i.kinds[1] == instruction::KIND_IMMEDIATE32 {
            Some((o.immediate32 as i32) as i64)
        } else if i.kinds[1] == instruction::KIND_IMMEDIATE32TO64 {
            Some(o.immediate32to64)
        } else if i.kinds[1] == instruction::KIND_IMMEDIATE64 {
            Some(o.immediate64 as i64)
        } else {
            None
        };
        match imm {
            None => None,
            Some(v) => if o.mnemonic == instruction::MNEMONIC_SUB {
                Some(negated(v))
            } else {
                Some(v)
            },
        }
    } else if o.mnemonic == instruction::MNEMONIC_LEA {
        if i.kinds[1] == instruction::KIND_MEMORY && i.registers.base.register == register
            && i.registers.index.register == instruction::REGISTER_NONE {
            Some(o.displacement as i64)
        } else {
            None
        }
    } else {
        None
    }
}

/// The negation of `v`; the smallest number is its own.
pub open spec fn negated(v: i64) -> i64 {
    if v == i64::MIN {
        v
    } else {
        (-v) as i64
    }
}

/// The sum of two signed words, modulo 2^64.
pub open spec fn wrapping_signed_sum(a: i64, b: i64) -> i64 {
    if a + b > i64::MAX {
        (a + b - 0x1_0000_0000_0000_0000) as i64
    } else if a + b < i64::MIN {
        (a + b + 0x1_0000_0000_0000_0000) as i64
    } else {
        (a + b) as i64
    }
}

/// Whether the instruction may write the full register `register`.
pub open spec fn clobbers(i: instruction::InstructionView, register: u32) -> bool {
    exists|j: int|
        0 <= j < i.accesses.len() && (#[trigger] i.accesses[j]).full == register
            && instruction::writes(i.accesses[j].access)
}

/// The address that the instruction loads a general register from, unless it lies in the child's
/// heap. A `lea` forms an address, but loads nothing.
pub open spec fn tracked_load(
    i: instruction::InstructionView,
    regs: RegistersView,
    map: Seq<relocations::RelocatedRange>,
) -> Option<u64> {
    match operand_address(i, regs) {
        Some(a) => if i.kinds.len() == 2 && i.kinds[0] == instruction::KIND_REGISTER && i.kinds[1]
            == instruction::KIND_MEMORY && i.operation.mnemonic != instruction::MNEMONIC_LEA
            && instruction::is_general(i.registers.op0.full) && !relocations::in_dest_heap(map, a) {
            Some(a)
        } else {
            None
        },
        None => None,
    }
}

/// What is known of the last load after an instruction that is not a tracked load: a constant
/// added to the register is folded in, and any other write to it ends the knowledge.
pub open spec fn advanced(
    i: instruction::InstructionView,
    chain: Option<LastLoad>,
) -> Option<LastLoad> {
    match chain {
        None => None,
        Some(c) => match constant_delta(i, c.register) {
            Some(d) => Some(LastLoad { offset: wrapping_signed_sum(c.offset, d), ..c }),
            None => if clobbers(i, c.register) {
                None
            } else {
                Some(c)
            },
        },
    }
}

/// What is known of the last load after a tracked load of the word at `address`.
pub open spec fn loaded(
    i: instruction::InstructionView,
    chain: Option<LastLoad>,
    address: u64,
    word: Option<u64>,
) -> Option<LastLoad> {
    match word {
        Some(v) => Some(
            LastLoad {
                load_address: address,
                loaded_value: v,
                register: i.registers.op0.full,
                offset: 0,
            },
        ),
        None => advanced(i, chain),
    }
}

impl LastLoad {
    /// The value that the register carries.
    pub open spec fn current(self) -> u64 {
        wrapping_sum(self.loaded_value, self.offset as u64)
    }

    /// The value that the register carries.
    pub fn current_value(&self) -> (r: u64)
        ensures
            r == self.current(),
    {
        let offset: u64 = self.offset as u64;
        let r: u64 = self.loaded_value.wrapping_add(offset);
        r
    }
}

/// The slot that a stale value read from memory, or added to since, came from: the word last loaded
/// is the stale value's origin, it lies in the child's memory outside the heap, it is translatable
/// and, where `aligned` asks for it, aligned like a pointer.
pub open spec fn origin_heal(
    stale: Option<u64>,
    chain: Option<LastLoad>,
    map: Seq<relocations::RelocatedRange>,
    aligned: bool,
) -> Option<Heal> {
    match (stale, chain) {
        (Some(v), Some(c)) => if c.current() == v && relocations::in_dest(map, c.load_address)
            && !relocations::in_dest_heap(map, c.load_address) && (aligned ==> c.loaded_value % 16
            == 0) {
            match relocations::translation(map, c.loaded_value) {
                Some(t) => Some(Heal { address: c.load_address, value: t }),
                None => None,
            }
        } else {
            None
        },
        _ => None,
    }
}

/// The address-forming register value that lies in the parent's memory: the base, or else the
/// index.
pub open spec fn stale_operand_value(
    i: instruction::InstructionView,
    regs: RegistersView,
    map: Seq<relocations::RelocatedRange>,
) -> Option<u64> {
    let base = register_value_of(i.registers.base, regs);
    let index = register_value_of(i.registers.index, regs);
    if base is Some && relocations::in_source(map, base->0) {
        base
    } else if index is Some && relocations::in_source(map, index->0) {
        index
    } else {
        None
    }
}

/// Whether the instruction calls or jumps to an address held in a register or in memory.
pub open spec fn is_indirect_branch(i: instruction::InstructionView) -> bool {
    i.operation.call_near_indirect || i.operation.jmp_near_indirect
}

/// The memory slot of the child, outside its heap, that an indirect branch takes its target from.
pub open spec fn target_slot(
    i: instruction::InstructionView,
    regs: RegistersView,
    map: Seq<relocations::RelocatedRange>,
) -> Option<u64> {
    match operand_address(i, regs) {
        Some(a) => if is_indirect_branch(i) && relocations::in_dest(map, a)
            && !relocations::in_dest_heap(map, a) {
            Some(a)
        } else {
            None
        },
        None => None,
    }
}

/// The stale value in the register that an indirect branch takes its target from.
pub open spec fn stale_target_register(
    i: instruction::InstructionView,
    regs: RegistersView,
    map: Seq<relocations::RelocatedRange>,
) -> Option<u64> {
    if is_indirect_branch(i) && operand_address(i, regs) is None && i.kinds.len() > 0 && i.kinds[0]
        == instruction::KIND_REGISTER {
        match register_value_of(i.registers.op0, regs) {
            Some(v) => if relocations::in_source(map, v) {
                Some(v)
            } else {
                None
            },
            None => None,
        }
    } else {
        None
    }
}

/// The heal of a branch target slot that holds `word`.
pub open spec fn target_heal(
    address: u64,
    word: Option<u64>,
    map: Seq<relocations::RelocatedRange>,
) -> Option<Heal> {
    match word {
        Some(v) => match relocations::translation(map, v) {
            Some(t) => Some(Heal { address, value: t }),
            None => None,
        },
        None => None,
    }
}

/// The state of a step: the registers, what is known of the last load, and what to do next.
#[verifier::ext_equal]
pub struct StepView {
    pub regs: RegistersView,
    pub chain: Option<LastLoad>,
    pub action: StepAction,
}

/// The end of a step that `heal` was decided for: the last load is brought up to date, with the
/// word read by a tracked load still to come.
pub open spec fn settled(
    i: instruction::InstructionView,
    regs: RegistersView,
    chain: Option<LastLoad>,
    map: Seq<relocations::RelocatedRange>,
    heal: Option<Heal>,
) -> StepView {
    match tracked_load(i, regs, map) {
        Some(address) => StepView { regs, chain, action: StepAction::ReadLoad { heal, address } },
        None => StepView {
            regs,
            chain: advanced(i, chain),
            action: StepAction::Finish { outcome: StepOutcome::Continue, heal },
        },
    }
}

/// Whether the instruction reads, and does not write, through an address of the parent that a
/// register can be repaired for.
pub open spec fn repairs_read(
    i: instruction::InstructionView,
    regs: RegistersView,
    map: Seq<relocations::RelocatedRange>,
) -> bool {
    &&& write_address(i, regs) is None
    &&& operand_address(i, regs) is Some
    &&& relocations::in_source(map, operand_address(i, regs)->0)
    &&& repaired(i, regs, map, 0).1
}

/// Whether the instruction writes to an address of the parent.
pub open spec fn writes_stale(
    i: instruction::InstructionView,
    regs: RegistersView,
    map: Seq<relocations::RelocatedRange>,
) -> bool {
    write_address(i, regs) is Some && relocations::in_source(map, write_address(i, regs)->0)
}

/// What a decoded instruction of the child leads to.
pub open spec fn code_step(
    i: instruction::InstructionView,
    regs: RegistersView,
    chain: Option<LastLoad>,
    map: Seq<relocations::RelocatedRange>,
) -> StepView {
    if i.operation.invalid {
        StepView {
            regs,
            chain,
            action: StepAction::Finish { outcome: StepOutcome::Continue, heal: None },
        }
    } else if repairs_read(i, regs, map) {
        StepView {
            regs: repaired(i, regs, map, 0).0,
            chain,
            action: StepAction::Finish {
                outcome: StepOutcome::Continue,
                heal: origin_heal(stale_operand_value(i, regs, map), chain, map, true),
            },
        }
    } else if writes_stale(i, regs, map) {
        StepView {
            regs: repaired(i, regs, map, 0).0,
            chain,
            action: StepAction::Finish {
                outcome: if repaired(i, regs, map, 0).1 {
                    StepOutcome::Continue
                } else {
                    StepOutcome::StalePointer {
                        address: write_address(i, regs)->0,
                        is_write: true,
                    }
                },
                heal: None,
            },
        }
    } else {
        match target_slot(i, regs, map) {
            Some(address) => StepView { regs, chain, action: StepAction::ReadTarget { address } },
            None => settled(
                i,
                regs,
                chain,
                map,
                origin_heal(stale_target_register(i, regs, map), chain, map, false),
            ),
        }
    }
}

/// The registers with the trap flag set or cleared.
pub open spec fn with_trap(regs: RegistersView, on: bool) -> RegistersView {
    RegistersView {
        eflags: if on {
            regs.eflags | EFLAGS_TF
        } else {
            regs.eflags & !EFLAGS_TF
        },
        ..regs
    }
}

/// What a single-step trap leads to before any memory is read. `map` is the address map of a
/// thread under verification; `rearmed` says that the trap belongs to the code watchpoint.
pub open spec fn trap_step(
    regs: RegistersView,
    map: Option<Seq<relocations::RelocatedRange>>,
    rearmed: bool,
) -> (RegistersView, StepAction) {
    let resume = StepAction::Finish { outcome: StepOutcome::Continue, heal: None };
    match map {
        None => (with_trap(regs, false), resume),
        Some(map) => if rearmed {
            (regs, resume)
        } else if relocations::in_source(map, regs.rip) {
            match relocations::translation(map, regs.rip) {
                None => (
                    regs,
                    StepAction::Finish {
                        outcome: StepOutcome::StalePointer { address: regs.rip, is_write: false },
                        heal: None,
                    },
                ),
                Some(t) => {
                    let rbp = regs.gpr[5];
                    let moved = RegistersView {
                        rip: t,
                        gpr: match relocations::translation(map, rbp) {
                            Some(b) => regs.gpr.update(5, b),
                            None => regs.gpr,
                        },
                        ..with_trap(regs, true)
                    };
                    let rsp = regs.gpr[4];
                    if rsp >= 8 && relocations::in_dest(map, (rsp - 8) as u64) {
                        (
                            moved,
                            StepAction::ReadReturnSlot {
                                slot: (rsp - 8) as u64,
                                stale: regs.rip,
                                translated: t,
                            },
                        )
                    } else {
                        (moved, resume)
                    }
                },
            }
        } else if !relocations::in_dest(map, regs.rip) {
            (with_trap(regs, false), resume)
        } else {
            (with_trap(regs, true), StepAction::ReadCode { address: regs.rip })
        },
    }
}

/// The value of register operand `u`.
pub fn register_value(u: RegisterUse, regs: &ThreadRegisters) -> (r: Option<u64>)
    ensures
        r == register_value_of(u, regs@),
{
    if u.full < instruction::REGISTER_RAX || u.full > instruction::REGISTER_R15 {
        return None;
    }
    let index: usize = (u.full - instruction::REGISTER_RAX) as usize;
    let v: u64 = regs.gpr[index];
    if u.size == 4 {
        Some((v as u32) as u64)
    } else {
        Some(v)
    }
}

/// Sets general register `full`; any other register is left alone.
pub fn write_register_value(full: u32, value: u64, regs: &mut ThreadRegisters)
    ensures
        final(regs)@ == with_register(old(regs)@, full, value),
{
    if instruction::REGISTER_RAX <= full && full <= instruction::REGISTER_R15 {
        let index: usize = (full - instruction::REGISTER_RAX) as usize;
        regs.gpr[index] = value;
    }
    assert(regs@ =~= with_register(old(regs)@, full, value));
}

fn absolute_base(register: u32) -> (r: bool)
    ensures
        r == is_absolute_base(register),
{
    register == instruction::REGISTER_NONE || register == instruction::REGISTER_RIP || register
        == instruction::REGISTER_EIP
}

fn has_memory_operand(i: &Instruction) -> (r: bool)
    ensures
        r == i.kinds@.contains(instruction::KIND_MEMORY),
{
    let mut j: usize = 0;
    while j < i.kinds.len()
        invariant
            j <= i.kinds@.len(),
            forall|k: int| 0 <= k < j ==> i.kinds@[k] != instruction::KIND_MEMORY,
        decreases i.kinds@.len() - j,
    {
        if i.kinds[j] == instruction::KIND_MEMORY {
            assert(i.kinds@[j as int] == instruction::KIND_MEMORY);
            return true;
        }
        j += 1;
    }
    false
}

/// The effective address of the explicit memory operand, whether it is read or written.
pub fn explicit_memory_operand_address(i: &Instruction, regs: &ThreadRegisters) -> (r: Option<u64>)
    ensures
        r == operand_address(i@, regs@),
{
    if !has_memory_operand(i) {
        return None;
    }
    let mut address: u64 = i.operation.displacement;
    if !absolute_base(i.registers.base.register) {
        match register_value(i.registers.base, regs) {
            Some(base) => {
                address = address.wrapping_add(base);
            },
            None => {
                return None;
            },
        }
    }
    if i.registers.index.register != instruction::REGISTER_NONE {
        match register_value(i.registers.index, regs) {
            Some(index) => {
                let scaled: u64 = index.wrapping_mul(i.operation.scale as u64);
                address = address.wrapping_add(scaled);
            },
            None => {
                return None;
            },
        }
    }
    Some(address)
}

/// The address the instruction writes to, if it writes memory at one that the registers give.
pub fn memory_write_address(i: &Instruction, regs: &ThreadRegisters) -> (r: Option<u64>)
    ensures
        r == write_address(i@, regs@),
{
    let mut j: usize = 0;
    let mut writes: bool = false;
    while j < i.memory.len()
        invariant
            j <= i.memory@.len(),
            writes <==> exists|k: int|
                0 <= k < j && instruction::writes((#[trigger] i.memory@[k]).access),
        decreases i.memory@.len() - j,
    {
        if instruction::access_writes(i.memory[j].access) {
            assert(instruction::writes(i.memory@[j as int].access));
            writes = true;
        }
        j += 1;
    }
    proof {
        let uses = i@.memory;
        assert(uses == i.memory@);
        if writes {
            let k = choose|k: int|
                0 <= k < uses.len() && instruction::writes((#[trigger] i.memory@[k]).access);
            assert(instruction::writes(uses[k].access));
        } else {
            assert forall|k: int| 0 <= k < uses.len() implies !instruction::writes(
                (#[trigger] uses[k]).access,
            ) by {
                assert(!instruction::writes(i.memory@[k].access));
            }
        }
    }
    if !writes {
        return None;
    }
    match explicit_memory_operand_address(i, regs) {
        Some(address) => Some(address),
        None => {
            let first = i.memory[0];
            if first.base == instruction::REGISTER_RSP || first.base == instruction::REGISTER_RBP {
                let index: usize = (first.base - instruction::REGISTER_RAX) as usize;
                let base: u64 = regs.gpr[index];
                assert(base == regs@.gpr[first.base - instruction::REGISTER_RAX]);
                Some(base.wrapping_add(first.displacement))
            } else {
                None
            }
        },
    }
}

fn translate_register(u: RegisterUse, regs: &mut ThreadRegisters, map: &AddressRelocations) -> (r:
    bool)
    ensures
        (final(regs)@, r) == repair_register(u, old(regs)@, map@),
{
    if absolute_base(u.register) {
        return false;
    }
    match register_value(u, regs) {
        None => false,
        Some(value) => match map.translate(value) {
            None => false,
            Some(translated) => {
                write_register_value(u.full, translated, regs);
                true
            },
        },
    }
}

/// Translates the registers that the instruction names as the base and index of its memory operand,
/// as far as they hold addresses of the parent. Returns whether there was one.
pub fn translate_memory_operand_registers(
    i: &Instruction,
    regs: &mut ThreadRegisters,
    map: &AddressRelocations,
) -> (r: bool)
    ensures
        (final(regs)@, r) == repaired(i@, old(regs)@, map@, 0),
{
    let ghost start = regs@;
    let mut any: bool = false;
    let mut j: usize = 0;
    while j < i.kinds.len()
        invariant
            j <= i.kinds@.len(),
            start == old(regs)@,
            repaired(i@, start, map@, 0).0 == repaired(i@, regs@, map@, j as int).0,
            repaired(i@, start, map@, 0).1 == (any || repaired(i@, regs@, map@, j as int).1),
        decreases i.kinds@.len() - j,
    {
        if i.kinds[j] == instruction::KIND_MEMORY {
            let base = translate_register(i.registers.base, regs, map);
            let index = translate_register(i.registers.index, regs, map);
            any = any || base || index;
        }
        j += 1;
    }
    any
}

/// The constant that the instruction adds to `register`, if that is all it does to it.
pub fn constant_offset_delta(i: &Instruction, register: u32) -> (r: Option<i64>)
    ensures
        r == constant_delta(i@, register),
{
    if i.kinds.len() != 2 || i.kinds[0] != instruction::KIND_REGISTER || i.registers.op0.full
        != register {
        return None;
    }
    let o = i.operation;
    let kind: u32 = i.kinds[1];
    if o.mnemonic == instruction::MNEMONIC_ADD || o.mnemonic == instruction::MNEMONIC_SUB {
        let imm: i64 = if kind == instruction::KIND_IMMEDIATE8 {
            (o.immediate8 as i8) as i64
        } else if kind == instruction::KIND_IMMEDIATE8TO64 {
            o.immediate8to64
        } else if kind == instruction::KIND_IMMEDIATE32 {
            (o.immediate32 as i32) as i64
        } else if kind == instruction::KIND_IMMEDIATE32TO64 {
            o.immediate32to64
        } else if kind == instruction::KIND_IMMEDIATE64 {
            o.immediate64 as i64
        } else {
            return None;
        };
        if o.mnemonic == instruction::MNEMONIC_SUB {
            Some(
                if imm == i64::MIN {
                    imm
                } else {
                    -imm
                },
            )
        } else {
            Some(imm)
        }
    } else if o.mnemonic == instruction::MNEMONIC_LEA {
        if kind == instruction::KIND_MEMORY && i.registers.base.register == register
            && i.registers.index.register == instruction::REGISTER_NONE {
            Some(o.displacement as i64)
        } else {
            None
        }
    } else {
        None
    }
}

fn register_clobbered(i: &Instruction, register: u32) -> (r: bool)
    ensures
        r == clobbers(i@, register),
{
    let mut j: usize = 0;
    while j < i.accesses.len()
        invariant
            j <= i.accesses@.len(),
            forall|k: int|
                0 <= k < j ==> !((#[trigger] i.accesses@[k]).full == register
                    && instruction::writes(i.accesses@[k].access)),
        decreases i.accesses@.len() - j,
    {
        let access = i.accesses[j];
        if access.full == register && instruction::access_writes(access.access) {
            assert(i@.accesses[j as int].full == register);
            return true;
        }
        j += 1;
    }
    false
}

/// Brings what is known of the last load up to date for an instruction that is not a tracked load.
fn advance_last_load(i: &Instruction, chain: &mut Option<LastLoad>)
    ensures
        *final(chain) == advanced(i@, *old(chain)),
{
    if let Some(c) = *chain {
        match constant_offset_delta(i, c.register) {
            Some(delta) => {
                *chain = Some(LastLoad { offset: c.offset.wrapping_add(delta), ..c });
            },
            None => {
                if register_clobbered(i, c.register) {
                    *chain = None;
                }
            },
        }
    }
}

/// The address that the instruction loads a general register from, unless it lies in the heap.
fn tracked_load_address(i: &Instruction, regs: &ThreadRegisters, map: &AddressRelocations) -> (r:
    Option<u64>)
    ensures
        r == tracked_load(i@, regs@, map@),
{
    match explicit_memory_operand_address(i, regs) {
        Some(address) => {
            let full: u32 = i.registers.op0.full;
            if i.kinds.len() == 2 && i.kinds[0] == instruction::KIND_REGISTER && i.kinds[1]
                == instruction::KIND_MEMORY && i.operation.mnemonic != instruction::MNEMONIC_LEA
                && instruction::REGISTER_RAX <= full && full <= instruction::REGISTER_R15
                && !map.is_in_destination_heap_range(address) {
                Some(address)
            } else {
                None
            }
        },
        None => None,
    }
}

fn find_origin_heal(
    stale: Option<u64>,
    chain: Option<LastLoad>,
    map: &AddressRelocations,
    aligned: bool,
) -> (r: Option<Heal>)
    ensures
        r == origin_heal(stale, chain, map@, aligned),
{
    match (stale, chain) {
        (Some(value), Some(c)) => {
            if c.current_value() == value && map.is_in_destination(c.load_address)
                && !map.is_in_destination_heap_range(c.load_address) && (!aligned
                || c.loaded_value % MIN_POINTER_ALIGN == 0) {
                match map.translate(c.loaded_value) {
                    Some(translated) => Some(Heal { address: c.load_address, value: translated }),
                    None => None,
                }
            } else {
                None
            }
        },
        _ => None,
    }
}

fn find_stale_operand(i: &Instruction, regs: &ThreadRegisters, map: &AddressRelocations) -> (r:
    Option<u64>)
    ensures
        r == stale_operand_value(i@, regs@, map@),
{
    if let Some(base) = register_value(i.registers.base, regs) {
        if map.is_in_source(base) {
            return Some(base);
        }
    }
    if let Some(index) = register_value(i.registers.index, regs) {
        if map.is_in_source(index) {
            return Some(index);
        }
    }
    None
}

fn find_stale_target(i: &Instruction, regs: &ThreadRegisters, map: &AddressRelocations) -> (r:
    Option<u64>)
    ensures
        r == stale_target_register(i@, regs@, map@),
{
    if (i.operation.call_near_indirect || i.operation.jmp_near_indirect)
        && explicit_memory_operand_address(i, regs).is_none() && i.kinds.len() > 0 && i.kinds[0]
        == instruction::KIND_REGISTER {
        if let Some(value) = register_value(i.registers.op0, regs) {
            if map.is_in_source(value) {
                return Some(value);
            }
        }
    }
    None
}

fn settle(
    i: &Instruction,
    regs: &ThreadRegisters,
    chain: &mut Option<LastLoad>,
    map: &AddressRelocations,
    heal: Option<Heal>,
) -> (r: StepAction)
    ensures
        (StepView { regs: regs@, chain: *final(chain), action: r }) == settled(
            i@,
            regs@,
            *old(chain),
            map@,
            heal,
        ),
{
    match tracked_load_address(i, regs, map) {
        Some(address) => StepAction::ReadLoad { heal, address },
        None => {
            advance_last_load(i, chain);
            StepAction::Finish { outcome: StepOutcome::Continue, heal }
        },
    }
}

/// Inspects a single-step trap. `map` is the address map of a thread under verification; `rearmed`
/// says that the trap belongs to the code watchpoint.
pub fn on_single_step(
    regs: &mut ThreadRegisters,
    map: Option<&AddressRelocations>,
    rearmed: bool,
) -> (r: StepAction)
    ensures
        (final(regs)@, r) == trap_step(
            old(regs)@,
            match map {
                Some(m) => Some(m@),
                None => None,
            },
            rearmed,
        ),
{
    let resume = StepAction::Finish { outcome: StepOutcome::Continue, heal: None };
    let map = match map {
        None => {
            regs.eflags = regs.eflags & !EFLAGS_TF;
            assert(regs@ =~= with_trap(old(regs)@, false));
            return resume;
        },
        Some(map) => map,
    };
    if rearmed {
        return resume;
    }
    let rip: u64 = regs.rip;
    if map.is_in_source(rip) {
        match map.translate(rip) {
            None => {
                return StepAction::Finish {
                    outcome: StepOutcome::StalePointer { address: rip, is_write: false },
                    heal: None,
                };
            },
            Some(translated) => {
                regs.rip = translated;
                if let Some(rbp) = map.translate(regs.gpr[5]) {
                    regs.gpr[5] = rbp;
                }
                regs.eflags = regs.eflags | EFLAGS_TF;
                let rsp: u64 = regs.gpr[4];
                if rsp >= 8 && map.is_in_destination(rsp - 8) {
                    return StepAction::ReadReturnSlot { slot: rsp - 8, stale: rip, translated };
                }
                return resume;
            },
        }
    }
    if !map.is_in_destination(rip) {
        regs.eflags = regs.eflags & !EFLAGS_TF;
        assert(regs@ =~= with_trap(old(regs)@, false));
        return resume;
    }
    regs.eflags = regs.eflags | EFLAGS_TF;
    assert(regs@ =~= with_trap(old(regs)@, true));
    StepAction::ReadCode { address: rip }
}

/// Goes on after the word below the stack pointer was read: a slot that still holds the stale
/// return address is healed.
pub fn on_return_slot(slot: u64, stale: u64, translated: u64, word: Option<u64>) -> (r: StepAction)
    ensures
        r == (StepAction::Finish {
            outcome: StepOutcome::Continue,
            heal: if word == Some(stale) {
                Some(Heal { address: slot, value: translated })
            } else {
                None
            },
        }),
{
    let heal = match word {
        Some(w) => if w == stale {
            Some(Heal { address: slot, value: translated })
        } else {
            None
        },
        None => None,
    };
    StepAction::Finish { outcome: StepOutcome::Continue, heal }
}

/// Goes on with the decoded instruction at the instruction pointer.
pub fn on_instruction(
    i: &Instruction,
    regs: &mut ThreadRegisters,
    chain: &mut Option<LastLoad>,
    map: &AddressRelocations,
) -> (r: StepAction)
    ensures
        (StepView { regs: final(regs)@, chain: *final(chain), action: r }) == code_step(
            i@,
            old(regs)@,
            *old(chain),
            map@,
        ),
{
    let resume = StepAction::Finish { outcome: StepOutcome::Continue, heal: None };
    if i.operation.invalid {
        return resume;
    }
    match memory_write_address(i, regs) {
        None => {
            if let Some(read_address) = explicit_memory_operand_address(i, regs) {
                if map.is_in_source(read_address) {
                    let stale = find_stale_operand(i, regs, map);
                    if translate_memory_operand_registers(i, regs, map) {
                        let heal = find_origin_heal(stale, *chain, map, true);
                        return StepAction::Finish { outcome: StepOutcome::Continue, heal };
                    }
                    proof {
                        lemma_repaired_nothing(i@, old(regs)@, map@, 0);
                    }
                }
            }
        },
        Some(address) => {
            if map.is_in_source(address) {
                if translate_memory_operand_registers(i, regs, map) {
                    return resume;
                }
                return StepAction::Finish {
                    outcome: StepOutcome::StalePointer { address, is_write: true },
                    heal: None,
                };
            }
        },
    }
    if i.operation.call_near_indirect || i.operation.jmp_near_indirect {
        if let Some(address) = explicit_memory_operand_address(i, regs) {
            if map.is_in_destination(address) && !map.is_in_destination_heap_range(address) {
                return StepAction::ReadTarget { address };
            }
        }
    }
    let stale = find_stale_target(i, regs, map);
    let heal = find_origin_heal(stale, *chain, map, false);
    settle(i, regs, chain, map, heal)
}

/// Goes on after the code bytes at the instruction pointer were read. Without any the step is over.
pub fn on_code(
    code: &[u8],
    regs: &mut ThreadRegisters,
    chain: &mut Option<LastLoad>,
    map: &AddressRelocations,
) -> (r: (StepAction, Instruction))
    ensures
        r.1@ == instruction::decoded(code@, old(regs).rip),
        (StepView { regs: final(regs)@, chain: *final(chain), action: r.0 }) == if code@.len() == 0 {
            StepView {
                regs: old(regs)@,
                chain: *old(chain),
                action: StepAction::Finish { outcome: StepOutcome::Continue, heal: None },
            }
        } else {
            code_step(
                instruction::decoded(code@, old(regs).rip),
                old(regs)@,
                *old(chain),
                map@,
            )
        },
{
    let i = instruction::decode(code, regs.rip);
    if code.len() == 0 {
        return (StepAction::Finish { outcome: StepOutcome::Continue, heal: None }, i);
    }
    let action = on_instruction(&i, regs, chain, map);
    (action, i)
}

/// Goes on after the branch target slot at `address` was read.
pub fn on_target(
    i: &Instruction,
    regs: &ThreadRegisters,
    chain: &mut Option<LastLoad>,
    map: &AddressRelocations,
    address: u64,
    word: Option<u64>,
) -> (r: StepAction)
    ensures
        (StepView { regs: regs@, chain: *final(chain), action: r }) == settled(
            i@,
            regs@,
            *old(chain),
            map@,
            target_heal(address, word, map@),
        ),
{
    let heal = match word {
        Some(value) => match map.translate(value) {
            Some(translated) => Some(Heal { address, value: translated }),
            None => None,
        },
        None => None,
    };
    settle(i, regs, chain, map, heal)
}

/// Goes on after the word that the instruction loads was read.
pub fn on_load(i: &Instruction, chain: &mut Option<LastLoad>, address: u64, word: Option<u64>) -> (r:
    StepAction)
    ensures
        *final(chain) == loaded(i@, *old(chain), address, word),
        r == (StepAction::Finish { outcome: StepOutcome::Continue, heal: None }),
{
    match word {
        Some(value) => {
            *chain = Some(
                LastLoad {
                    load_address: address,
                    loaded_value: value,
                    register: i.registers.op0.full,
                    offset: 0,
                },
            );
        },
        None => {
            advance_last_load(i, chain);
        },
    }
    StepAction::Finish { outcome: StepOutcome::Continue, heal: None }
}

proof fn lemma_repaired_nothing(
    i: instruction::InstructionView,
    regs: RegistersView,
    map: Seq<relocations::RelocatedRange>,
    from: int,
)
    ensures
        !repaired(i, regs, map, from).1 ==> repaired(i, regs, map, from).0 == regs,
    decreases i.kinds.len() - from,
{
    if 0 <= from < i.kinds.len() {
        if i.kinds[from] != instruction::KIND_MEMORY {
            lemma_repaired_nothing(i, regs, map, from + 1);
        } else {
            let base = repair_register(i.registers.base, regs, map);
            let index = repair_register(i.registers.index, base.0, map);
            lemma_repaired_nothing(i, index.0, map, from + 1);
        }
    }
}

/// Whether a heal writes the translation of some value into the child's memory.
pub open spec fn is_sound_heal(h: Heal, map: Seq<relocations::RelocatedRange>) -> bool {
    &&& relocations::in_dest(map, h.address)
    &&& exists|v: u64| relocations::translation(map, v) == Some(h.value)
}

/// The heal that a step action carries.
pub open spec fn heal_of(action: StepAction) -> Option<Heal> {
    match action {
        StepAction::Finish { outcome, heal } => heal,
        StepAction::ReadLoad { heal, address } => heal,
        _ => None,
    }
}

/// Whether `a` is an address-forming register of the instruction.
pub open spec fn forms_address(i: instruction::InstructionView, full: u32) -> bool {
    i.registers.base.full == full || i.registers.index.full == full
}

proof fn lemma_origin_heal(
    stale: Option<u64>,
    chain: Option<LastLoad>,
    map: Seq<relocations::RelocatedRange>,
    aligned: bool,
)
    ensures
        origin_heal(stale, chain, map, aligned) matches Some(h) ==> is_sound_heal(h, map),
{
}

/// Every heal that an instruction leads to writes a translation into memory of the child; the
/// parent's memory is never written.
pub proof fn law_heals_are_sound(
    i: instruction::InstructionView,
    regs: RegistersView,
    chain: Option<LastLoad>,
    map: Seq<relocations::RelocatedRange>,
    word: Option<u64>,
)
    ensures
        heal_of(code_step(i, regs, chain, map).action) matches Some(h) ==> is_sound_heal(h, map),
        code_step(i, regs, chain, map).action matches StepAction::ReadTarget { address } ==> (
        heal_of(settled(i, regs, chain, map, target_heal(address, word, map)).action) matches Some(
            h,
        ) ==> is_sound_heal(h, map)),
{
    lemma_origin_heal(stale_operand_value(i, regs, map), chain, map, true);
    lemma_origin_heal(stale_target_register(i, regs, map), chain, map, false);
}

/// The heal of a return slot writes the translation of the stale return address into memory of the
/// child.
pub proof fn law_return_heal_is_sound(
    regs: RegistersView,
    map: Seq<relocations::RelocatedRange>,
    rearmed: bool,
)
    ensures
        trap_step(regs, Some(map), rearmed).1 matches StepAction::ReadReturnSlot {
            slot,
            stale,
            translated,
        } ==> relocations::in_dest(map, slot) && relocations::translation(map, stale) == Some(
            translated,
        ),
{
}

/// A repaired register holds the translation of the value that the operand had, and every other
/// register keeps its value.
pub proof fn law_repair_is_translation(
    u: RegisterUse,
    regs: RegistersView,
    map: Seq<relocations::RelocatedRange>,
    n: int,
)
    requires
        0 <= n < 16,
        regs.gpr.len() == 16,
    ensures
        ({
            let (after, done) = repair_register(u, regs, map);
            &&& after.gpr.len() == 16
            &&& done && n == u.full - instruction::REGISTER_RAX ==> register_value_of(u, regs)
                is Some && relocations::translation(map, register_value_of(u, regs)->0) == Some(
                after.gpr[n],
            )
            &&& !done || n != u.full - instruction::REGISTER_RAX ==> after.gpr[n] == regs.gpr[n]
        }),
{
}

/// An instruction of the child changes no general register other than the ones that form its
/// memory operand's address, and neither the instruction pointer nor the flags.
pub proof fn law_only_operand_registers_change(
    i: instruction::InstructionView,
    regs: RegistersView,
    chain: Option<LastLoad>,
    map: Seq<relocations::RelocatedRange>,
    n: int,
)
    requires
        0 <= n < 16,
        regs.gpr.len() == 16,
        !forms_address(i, (instruction::REGISTER_RAX + n) as u32),
    ensures
        code_step(i, regs, chain, map).regs.gpr[n] == regs.gpr[n],
        code_step(i, regs, chain, map).regs.rip == regs.rip,
        code_step(i, regs, chain, map).regs.eflags == regs.eflags,
{
    lemma_repaired_frame(i, regs, map, 0, n);
}

proof fn lemma_repaired_frame(
    i: instruction::InstructionView,
    regs: RegistersView,
    map: Seq<relocations::RelocatedRange>,
    from: int,
    n: int,
)
    requires
        0 <= n < 16,
        regs.gpr.len() == 16,
        !forms_address(i, (instruction::REGISTER_RAX + n) as u32),
    ensures
        repaired(i, regs, map, from).0.gpr.len() == 16,
        repaired(i, regs, map, from).0.gpr[n] == regs.gpr[n],
        repaired(i, regs, map, from).0.rip == regs.rip,
        repaired(i, regs, map, from).0.eflags == regs.eflags,
    decreases i.kinds.len() - from,
{
    if 0 <= from < i.kinds.len() {
        if i.kinds[from] != instruction::KIND_MEMORY {
            lemma_repaired_frame(i, regs, map, from + 1, n);
        } else {
            let base = repair_register(i.registers.base, regs, map);
            let index = repair_register(i.registers.index, base.0, map);
            lemma_repaired_frame(i, index.0, map, from + 1, n);
        }
    }
}

/// An instruction of the child that touches no memory of the parent is left alone: it is not
/// killed and no register changes.
pub proof fn law_no_false_positive(
    i: instruction::InstructionView,
    regs: RegistersView,
    chain: Option<LastLoad>,
    map: Seq<relocations::RelocatedRange>,
)
    requires
        write_address(i, regs) matches Some(a) ==> !relocations::in_source(map, a),
        operand_address(i, regs) matches Some(a) ==> !relocations::in_source(map, a),
    ensures
        code_step(i, regs, chain, map).regs == regs,
        !(code_step(i, regs, chain, map).action is Finish) || code_step(
            i,
            regs,
            chain,
            map,
        ).action->outcome == StepOutcome::Continue,
{
}

/// While the child's copies avoid the parent's ranges, memory of the child is never taken for
/// memory of the parent: an instruction that only addresses the child's memory is left alone.
pub proof fn law_child_memory_is_never_flagged(
    i: instruction::InstructionView,
    regs: RegistersView,
    chain: Option<LastLoad>,
    map: Seq<relocations::RelocatedRange>,
)
    requires
        relocations::is_separated(map),
        write_address(i, regs) matches Some(a) ==> relocations::in_dest(map, a),
        operand_address(i, regs) matches Some(a) ==> relocations::in_dest(map, a),
    ensures
        code_step(i, regs, chain, map).regs == regs,
        code_step(i, regs, chain, map).action matches StepAction::Finish { outcome, heal }
            ==> outcome == StepOutcome::Continue,
{
    if let Some(a) = write_address(i, regs) {
        assert(!(relocations::in_source(map, a) && relocations::in_dest(map, a)));
    }
    if let Some(a) = operand_address(i, regs) {
        assert(!(relocations::in_source(map, a) && relocations::in_dest(map, a)));
    }
    law_no_false_positive(i, regs, chain, map);
}

/// A child is killed only for a write to memory of the parent that no register repair can redirect.
pub proof fn law_kill_only_for_stale_write(
    i: instruction::InstructionView,
    regs: RegistersView,
    chain: Option<LastLoad>,
    map: Seq<relocations::RelocatedRange>,
)
    ensures
        code_step(i, regs, chain, map).action matches StepAction::Finish {
            outcome: StepOutcome::StalePointer { address, is_write },
            heal,
        } ==> {
            &&& is_write
            &&& heal is None
            &&& write_address(i, regs) == Some(address)
            &&& relocations::in_source(map, address)
            &&& !repaired(i, regs, map, 0).1
        },
{
}

/// The part of the address that a register operand contributes: the whole register, or its low half.
pub open spec fn contribution(u: RegisterUse, regs: RegistersView) -> int {
    let v = regs.gpr[u.full - instruction::REGISTER_RAX] as int;
    if u.size == 4 {
        v % 0x1_0000_0000
    } else {
        v
    }
}

/// Whether a register operand is one of the sixteen general registers or a part of one.
pub open spec fn names_general(u: RegisterUse) -> bool {
    instruction::REGISTER_RAX <= u.full < instruction::REGISTER_RAX + 16
}

/// The address of a memory operand is its displacement, plus the base register, plus the index
/// register as often as the scale says, modulo 2^64. Without a base register, or with the
/// instruction pointer as one, and without an index register that part is missing. There is no
/// address only if there is no memory operand or if a register is not a general one.
pub proof fn law_effective_address(
    i: instruction::InstructionView,
    regs: RegistersView,
    k: int,
)
    requires
        regs.gpr.len() == 16,
        0 <= k < i.kinds.len(),
        i.kinds[k] == instruction::KIND_MEMORY,
    ensures
        ({
            let b = i.registers.base;
            let x = i.registers.index;
            let no_base = b.register == instruction::REGISTER_NONE || b.register
                == instruction::REGISTER_RIP || b.register == instruction::REGISTER_EIP;
            let no_index = x.register == instruction::REGISTER_NONE;
            let base = if no_base {
                0
            } else {
                contribution(b, regs)
            };
            let index = if no_index {
                0
            } else {
                contribution(x, regs) * i.operation.scale
            };
            &&& (no_base || names_general(b)) && (no_index || names_general(x)) ==> (
            operand_address(i, regs) matches Some(a) && a as int == (i.operation.displacement + base
                + index) % 0x1_0000_0000_0000_0000)
            &&& !((no_base || names_general(b)) && (no_index || names_general(x)))
                ==> operand_address(i, regs) is None
        }),
{
    let m: int = 0x1_0000_0000_0000_0000;
    assert(i.kinds.contains(instruction::KIND_MEMORY));
    let b = i.registers.base;
    let x = i.registers.index;
    let d = i.operation.displacement;
    lemma_operand_value(b, regs);
    lemma_operand_value(x, regs);
    let no_base = is_absolute_base(b.register);
    let no_index = x.register == instruction::REGISTER_NONE;
    let base = if no_base {
        0
    } else {
        contribution(b, regs)
    };
    if (no_base || names_general(b)) && (no_index || names_general(x)) {
        if no_base {
            vstd::arithmetic::div_mod::lemma_small_mod(d as nat, m as nat);
        }
        if !no_index {
            let product = contribution(x, regs) * i.operation.scale;
            assert(0 <= product) by (nonlinear_arith)
                requires
                    product == contribution(x, regs) * i.operation.scale,
                    contribution(x, regs) >= 0,
                    i.operation.scale >= 0,
            ;
            vstd::arithmetic::div_mod::lemma_add_mod_noop(d + base, product, m);
        }
    }
}

proof fn lemma_operand_value(u: RegisterUse, regs: RegistersView)
    requires
        regs.gpr.len() == 16,
    ensures
        names_general(u) ==> register_value_of(u, regs) is Some && register_value_of(u, regs)->0
            as int == contribution(u, regs),
        !names_general(u) ==> register_value_of(u, regs) is None,
{
    if names_general(u) {
        let v = regs.gpr[u.full - instruction::REGISTER_RAX];
        assert((v as u32) as u64 == v % 0x1_0000_0000) by (bit_vector);
    }
}

/// An instruction writes to the address of its memory operand if any of the memory it uses may be
/// written, conditionally or not; without such an operand it writes where the stack or frame pointer
/// leads. An instruction that writes none of the memory it uses has no such address.
pub proof fn law_written_memory_has_an_address(
    i: instruction::InstructionView,
    regs: RegistersView,
    j: int,
)
    requires
        regs.gpr.len() == 16,
    ensures
        0 <= j < i.memory.len() && 3 <= i.memory[j].access <= 6 && operand_address(i, regs) is Some
            ==> write_address(i, regs) == operand_address(i, regs),
        0 <= j < i.memory.len() && 3 <= i.memory[j].access <= 6 && operand_address(i, regs) is None
            && (i.memory[0].base == instruction::REGISTER_RSP || i.memory[0].base
            == instruction::REGISTER_RBP) ==> (write_address(i, regs) matches Some(a) && a as int
            == (regs.gpr[i.memory[0].base - instruction::REGISTER_RAX] + i.memory[0].displacement)
            % 0x1_0000_0000_0000_0000),
        write_address(i, regs) is Some ==> exists|k: int|
            0 <= k < i.memory.len() && 3 <= (#[trigger] i.memory[k]).access <= 6,
{
    if 0 <= j < i.memory.len() && 3 <= i.memory[j].access <= 6 {
        assert(instruction::writes(i.memory[j].access));
    }
    if write_address(i, regs) is Some {
        let k = choose|k: int|
            0 <= k < i.memory.len() && instruction::writes((#[trigger] i.memory[k]).access);
        assert(3 <= i.memory[k].access <= 6);
    }
}

/// No write reaches the parent's memory: an instruction that is about to write to an address of one
/// of the parent's ranges either has an address-forming register replaced by its translation before
/// it is tried again, or ends the child, with that address. It never runs as it is.
pub proof fn law_no_write_reaches_the_parent(
    i: instruction::InstructionView,
    regs: RegistersView,
    chain: Option<LastLoad>,
    map: Seq<relocations::RelocatedRange>,
    q: int,
    a: u64,
)
    requires
        !i.operation.invalid,
        write_address(i, regs) == Some(a),
        0 <= q < map.len(),
        map[q].source_start <= a < map[q].source_end,
    ensures
        ({
            let step = code_step(i, regs, chain, map);
            let outcome = step.action->outcome;
            &&& step.action is Finish
            &&& step.action->Finish_heal is None
            &&& outcome == StepOutcome::Continue ==> repaired(i, regs, map, 0).1 && step.regs
                == repaired(i, regs, map, 0).0
            &&& outcome != StepOutcome::Continue ==> outcome == (StepOutcome::StalePointer {
                address: a,
                is_write: true,
            }) && step.regs == regs
        }),
{
    assert(map[q].has_source(a));
    lemma_repaired_nothing(i, regs, map, 0);
}

/// Whether general register `n` forms the address of the instruction's memory operand.
pub open spec fn forms_operand(i: instruction::InstructionView, n: int) -> bool {
    let b = i.registers.base;
    let x = i.registers.index;
    ||| b.full - instruction::REGISTER_RAX == n && b.register != instruction::REGISTER_NONE
        && b.register != instruction::REGISTER_RIP && b.register != instruction::REGISTER_EIP
    ||| x.full - instruction::REGISTER_RAX == n && x.register != instruction::REGISTER_NONE
        && x.register != instruction::REGISTER_RIP && x.register != instruction::REGISTER_EIP
}

/// Whether general register `n` forms the operand's address and holds an address of the parent that
/// has a translation.
pub open spec fn is_stale_register(
    i: instruction::InstructionView,
    regs: RegistersView,
    map: Seq<relocations::RelocatedRange>,
    n: int,
) -> bool {
    0 <= n < 16 && forms_operand(i, n) && relocations::translation(map, regs.gpr[n]) is Some
}

/// Whether `after` is `before` with every stale register translated and nothing else changed.
pub open spec fn is_translated(
    i: instruction::InstructionView,
    before: RegistersView,
    after: RegistersView,
    map: Seq<relocations::RelocatedRange>,
) -> bool {
    &&& after.gpr.len() == 16
    &&& after.rip == before.rip
    &&& after.eflags == before.eflags
    &&& forall|n: int|
        0 <= n < 16 ==> #[trigger] after.gpr[n] == if is_stale_register(i, before, map, n) {
            relocations::translation(map, before.gpr[n])->0
        } else {
            before.gpr[n]
        }
}

/// A repair translates each register that forms the address and holds an address of the parent, once
/// and whatever the number of operands, and nothing else. It is for 64-bit registers, and for a child
/// whose memory avoids the parent's.
pub proof fn law_repair_translates_stale_registers(
    i: instruction::InstructionView,
    regs: RegistersView,
    map: Seq<relocations::RelocatedRange>,
    k: int,
)
    requires
        regs.gpr.len() == 16,
        relocations::all_fit(map),
        relocations::is_separated(map),
        i.registers.base.size != 4,
        i.registers.index.size != 4,
        0 <= k < i.kinds.len(),
        i.kinds[k] == instruction::KIND_MEMORY,
    ensures
        is_translated(i, regs, repaired(i, regs, map, 0).0, map),
        repaired(i, regs, map, 0).1 <==> exists|n: int| #[trigger]
            is_stale_register(i, regs, map, n),
{
    lemma_repaired_exact(i, regs, map, 0, k);
}

proof fn lemma_one_repair(
    i: instruction::InstructionView,
    regs: RegistersView,
    map: Seq<relocations::RelocatedRange>,
) -> (after: RegistersView)
    requires
        regs.gpr.len() == 16,
        relocations::all_fit(map),
        relocations::is_separated(map),
        i.registers.base.size != 4,
        i.registers.index.size != 4,
    ensures
        after == repair_register(
            i.registers.index,
            repair_register(i.registers.base, regs, map).0,
            map,
        ).0,
        is_translated(i, regs, after, map),
        (repair_register(i.registers.base, regs, map).1 || repair_register(
            i.registers.index,
            repair_register(i.registers.base, regs, map).0,
            map,
        ).1) <==> exists|n: int| #[trigger] is_stale_register(i, regs, map, n),
        forall|n: int| !#[trigger] is_stale_register(i, after, map, n),
{
    let b = i.registers.base;
    let x = i.registers.index;
    let one = repair_register(b, regs, map);
    let two = repair_register(x, one.0, map);
    let nb = b.full - instruction::REGISTER_RAX;
    let nx = x.full - instruction::REGISTER_RAX;
    if 0 <= nb < 16 {
        relocations::law_translation_settles(map, regs.gpr[nb]);
    }
    if 0 <= nx < 16 {
        relocations::law_translation_settles(map, regs.gpr[nx]);
        relocations::law_translation_settles(map, one.0.gpr[nx]);
    }
    if one.1 {
        assert(is_stale_register(i, regs, map, nb));
    }
    if two.1 {
        assert(is_stale_register(i, regs, map, nx));
    }
    assert forall|n: int| is_stale_register(i, regs, map, n) implies one.1 || two.1 by {
        assert(n == nb || n == nx);
    }
    assert forall|n: int| !#[trigger] is_stale_register(i, two.0, map, n) by {
        if 0 <= n < 16 && forms_operand(i, n) {
            assert(n == nb || n == nx);
        }
    }
    two.0
}

proof fn lemma_repaired_settled(
    i: instruction::InstructionView,
    regs: RegistersView,
    map: Seq<relocations::RelocatedRange>,
    from: int,
)
    requires
        regs.gpr.len() == 16,
        relocations::all_fit(map),
        relocations::is_separated(map),
        i.registers.base.size != 4,
        i.registers.index.size != 4,
        forall|n: int| !#[trigger] is_stale_register(i, regs, map, n),
    ensures
        repaired(i, regs, map, from) == (regs, false),
    decreases i.kinds.len() - from,
{
    if 0 <= from < i.kinds.len() {
        if i.kinds[from] == instruction::KIND_MEMORY {
            let after = lemma_one_repair(i, regs, map);
            assert(after.gpr =~= regs.gpr);
            assert(after =~= regs);
        }
        lemma_repaired_settled(i, regs, map, from + 1);
    }
}

proof fn lemma_repaired_exact(
    i: instruction::InstructionView,
    regs: RegistersView,
    map: Seq<relocations::RelocatedRange>,
    from: int,
    k: int,
)
    requires
        regs.gpr.len() == 16,
        relocations::all_fit(map),
        relocations::is_separated(map),
        i.registers.base.size != 4,
        i.registers.index.size != 4,
        0 <= from <= k < i.kinds.len(),
        i.kinds[k] == instruction::KIND_MEMORY,
    ensures
        is_translated(i, regs, repaired(i, regs, map, from).0, map),
        repaired(i, regs, map, from).1 <==> exists|n: int| #[trigger]
            is_stale_register(i, regs, map, n),
    decreases k - from,
{
    if i.kinds[from] != instruction::KIND_MEMORY {
        lemma_repaired_exact(i, regs, map, from + 1, k);
    } else {
        let after = lemma_one_repair(i, regs, map);
        lemma_repaired_settled(i, after, map, from + 1);
    }
}

/// Whatever the width of a register, an operand whose base holds an address of the parent that has a
/// translation, or whose index does, is repaired: a child is never killed for it.
pub proof fn law_any_stale_operand_is_repaired(
    i: instruction::InstructionView,
    regs: RegistersView,
    map: Seq<relocations::RelocatedRange>,
    k: int,
    t: u64,
)
    requires
        regs.gpr.len() == 16,
        0 <= k < i.kinds.len(),
        i.kinds[k] == instruction::KIND_MEMORY,
    ensures
        names_general(i.registers.base) && i.registers.base.register != instruction::REGISTER_NONE
            && i.registers.base.register != instruction::REGISTER_RIP && i.registers.base.register
            != instruction::REGISTER_EIP && relocations::translation(
            map,
            contribution(i.registers.base, regs) as u64,
        ) == Some(t) ==> repaired(i, regs, map, 0).1 && repair_register(
            i.registers.base,
            regs,
            map,
        ).0.gpr[i.registers.base.full - instruction::REGISTER_RAX] == t,
        names_general(i.registers.index) && i.registers.index.register
            != instruction::REGISTER_NONE && i.registers.index.register
            != instruction::REGISTER_RIP && i.registers.index.register != instruction::REGISTER_EIP
            && relocations::translation(map, contribution(i.registers.index, regs) as u64) == Some(
            t,
        ) ==> repaired(i, regs, map, 0).1,
{
    lemma_operand_value(i.registers.base, regs);
    lemma_operand_value(i.registers.index, regs);
    lemma_first_operand(i, regs, map, 0, k);
}

proof fn lemma_first_operand(
    i: instruction::InstructionView,
    regs: RegistersView,
    map: Seq<relocations::RelocatedRange>,
    from: int,
    k: int,
)
    requires
        0 <= from <= k < i.kinds.len(),
        i.kinds[k] == instruction::KIND_MEMORY,
    ensures
        repair_register(i.registers.base, regs, map).1 || repair_register(
            i.registers.index,
            regs,
            map,
        ).1 ==> repaired(i, regs, map, from).1,
    decreases k - from,
{
    if i.kinds[from] != instruction::KIND_MEMORY {
        lemma_first_operand(i, regs, map, from + 1, k);
    }
}

/// The child's heap is never healed: a word there is healed neither as a branch target nor as the
/// origin of a stale value, for it may be an ordinary number.
pub proof fn law_heap_is_never_healed(
    i: instruction::InstructionView,
    regs: RegistersView,
    chain: Option<LastLoad>,
    map: Seq<relocations::RelocatedRange>,
    word: Option<u64>,
)
    ensures
        heal_of(code_step(i, regs, chain, map).action) matches Some(h)
            ==> !relocations::in_dest_heap(map, h.address),
        code_step(i, regs, chain, map).action matches StepAction::ReadTarget { address }
            ==> !relocations::in_dest_heap(map, address) && (target_heal(address, word, map) matches
            Some(h) ==> h.address == address),
        code_step(i, regs, chain, map).action matches StepAction::ReadLoad { heal, address }
            ==> !relocations::in_dest_heap(map, address),
{
}

/// The slot that a stale pointer was read from is healed with it: a read through a register whose
/// value was loaded from the child's memory outside the heap, constants added since taken into
/// account, has that slot healed with the translation of the word that was loaded, if the word is
/// aligned like a pointer, and is not healed if it is not.
pub proof fn law_stale_pointers_are_healed_at_their_origin(
    i: instruction::InstructionView,
    regs: RegistersView,
    c: LastLoad,
    map: Seq<relocations::RelocatedRange>,
    n: int,
    q: int,
    a: u64,
)
    requires
        !i.operation.invalid,
        regs.gpr.len() == 16,
        relocations::all_fit(map),
        0 <= n < 16,
        i.registers.base.full - instruction::REGISTER_RAX == n,
        i.registers.base.size == 8,
        i.registers.base.register != instruction::REGISTER_NONE,
        i.registers.base.register != instruction::REGISTER_RIP,
        i.registers.base.register != instruction::REGISTER_EIP,
        i.kinds.contains(instruction::KIND_MEMORY),
        write_address(i, regs) is None,
        operand_address(i, regs) == Some(a),
        relocations::in_source(map, a),
        relocations::translation(map, regs.gpr[n]) is Some,
        regs.gpr[n] == c.current(),
        relocations::in_dest(map, c.load_address),
        !relocations::in_dest_heap(map, c.load_address),
        relocations::is_first_with(map, c.loaded_value, q),
        map[q].dest_base is Some,
    ensures
        c.loaded_value % 16 == 0 ==> (heal_of(code_step(i, regs, Some(c), map).action) matches Some(
            h,
        ) && h.address == c.load_address && h.value - map[q].dest_base->0 == c.loaded_value
            - map[q].source_start),
        c.loaded_value % 16 != 0 ==> heal_of(code_step(i, regs, Some(c), map).action) is None,
        code_step(i, regs, Some(c), map).action is Finish,
        heal_of(code_step(i, regs, None, map).action) is None,
{
    let k = choose|k: int| 0 <= k < i.kinds.len() && i.kinds[k] == instruction::KIND_MEMORY;
    let t = relocations::translation(map, regs.gpr[n])->0;
    law_any_stale_operand_is_repaired(i, regs, map, k, t);
    relocations::law_translation_is_an_offset(map, c.loaded_value, q);
    relocations::law_translation(map, regs.gpr[n]);
}

/// An encoding that is no instruction, and memory without code, change nothing.
pub proof fn law_no_instruction_changes_nothing(
    i: instruction::InstructionView,
    regs: RegistersView,
    chain: Option<LastLoad>,
    map: Seq<relocations::RelocatedRange>,
)
    requires
        i.operation.invalid,
    ensures
        code_step(i, regs, chain, map) == (StepView {
            regs,
            chain,
            action: StepAction::Finish { outcome: StepOutcome::Continue, heal: None },
        }),
{
}

/// A store through a stale base register lands in the child: the register is replaced by its
/// translation and the store, tried again, goes to the address that lies as far from the translation
/// as the address in the parent's memory lay from the stale value. The range `q` is the one that the
/// stale value belongs to.
pub proof fn law_stale_store_is_redirected(
    i: instruction::InstructionView,
    regs: RegistersView,
    chain: Option<LastLoad>,
    map: Seq<relocations::RelocatedRange>,
    k: int,
    j: int,
    q: int,
)
    requires
        !i.operation.invalid,
        regs.gpr.len() == 16,
        relocations::all_fit(map),
        relocations::is_separated(map),
        0 <= k < i.kinds.len(),
        i.kinds[k] == instruction::KIND_MEMORY,
        0 <= j < i.memory.len(),
        3 <= i.memory[j].access <= 6,
        names_general(i.registers.base),
        i.registers.base.size == 8,
        i.registers.base.register != instruction::REGISTER_NONE,
        i.registers.base.register != instruction::REGISTER_RIP,
        i.registers.base.register != instruction::REGISTER_EIP,
        i.registers.index.register != instruction::REGISTER_NONE ==> names_general(
            i.registers.index,
        ) && i.registers.index.size == 8 && i.registers.index.register
            != instruction::REGISTER_RIP && i.registers.index.register != instruction::REGISTER_EIP
            && i.registers.index.full != i.registers.base.full && relocations::translation(
            map,
            regs.gpr[i.registers.index.full - instruction::REGISTER_RAX],
        ) is None,
        i.registers.index.register == instruction::REGISTER_NONE ==> i.registers.index.size != 4,
        relocations::is_first_with(
            map,
            regs.gpr[i.registers.base.full - instruction::REGISTER_RAX],
            q,
        ),
        map[q].dest_base is Some,
        write_address(i, regs) matches Some(a) && relocations::in_source(map, a),
    ensures
        ({
            let n = i.registers.base.full - instruction::REGISTER_RAX;
            let step = code_step(i, regs, chain, map);
            let moved = map[q].dest_base->0 - map[q].source_start;
            &&& step.action == (StepAction::Finish {
                outcome: StepOutcome::Continue,
                heal: None,
            })
            &&& step.regs.gpr.len() == 16
            &&& step.regs.gpr[n] == regs.gpr[n] + moved
            &&& forall|o: int|
                0 <= o < 16 && o != n ==> #[trigger] step.regs.gpr[o] == regs.gpr[o]
            &&& write_address(i, step.regs) is Some
            &&& write_address(i, step.regs)->0 as int == (write_address(i, regs)->0 + moved)
                % 0x1_0000_0000_0000_0000
        }),
{
    let m: int = 0x1_0000_0000_0000_0000;
    let b = i.registers.base;
    let x = i.registers.index;
    let n = b.full - instruction::REGISTER_RAX;
    let v = regs.gpr[n];
    let after = repaired(i, regs, map, 0).0;
    relocations::law_translation_is_an_offset(map, v, q);
    law_repair_translates_stale_registers(i, regs, map, k);
    assert(is_stale_register(i, regs, map, n));
    assert forall|o: int| 0 <= o < 16 && o != n implies #[trigger] after.gpr[o] == regs.gpr[o] by {
        if is_stale_register(i, regs, map, o) {
            assert(o == x.full - instruction::REGISTER_RAX);
        }
    }
    law_effective_address(i, regs, k);
    law_effective_address(i, after, k);
    law_written_memory_has_an_address(i, regs, j);
    law_written_memory_has_an_address(i, after, j);
    assert(instruction::writes(i.memory[j].access));
    assert(repairs_read(i, regs, map) == false);
    let index = if x.register == instruction::REGISTER_NONE {
        0
    } else {
        contribution(x, regs) * i.operation.scale
    };
    let moved = map[q].dest_base->0 - map[q].source_start;
    let old_sum = i.operation.displacement + v + index;
    assert(write_address(i, regs)->0 as int == old_sum % m);
    assert(write_address(i, after)->0 as int == (old_sum + moved) % m);
    vstd::arithmetic::div_mod::lemma_add_mod_noop_right(moved, old_sum, m);
}

/// A read through a stale register is redirected like a write: an instruction that only reads, at an
/// address of the parent, has its stale registers translated and is tried again, if it has any.
pub proof fn law_stale_reads_are_redirected(
    i: instruction::InstructionView,
    regs: RegistersView,
    chain: Option<LastLoad>,
    map: Seq<relocations::RelocatedRange>,
    k: int,
    n: int,
    q: int,
    a: u64,
)
    requires
        !i.operation.invalid,
        regs.gpr.len() == 16,
        relocations::all_fit(map),
        relocations::is_separated(map),
        i.registers.base.size != 4,
        i.registers.index.size != 4,
        0 <= k < i.kinds.len(),
        i.kinds[k] == instruction::KIND_MEMORY,
        forall|j: int| 0 <= j < i.memory.len() ==> !(3 <= (#[trigger] i.memory[j]).access <= 6),
        operand_address(i, regs) == Some(a),
        0 <= q < map.len(),
        map[q].source_start <= a < map[q].source_end,
        is_stale_register(i, regs, map, n),
    ensures
        is_translated(i, regs, code_step(i, regs, chain, map).regs, map),
        code_step(i, regs, chain, map).action is Finish,
        code_step(i, regs, chain, map).action->outcome == StepOutcome::Continue,
{
    assert(map[q].has_source(a));
    law_written_memory_has_an_address(i, regs, 0);
    law_repair_translates_stale_registers(i, regs, map, k);
    assert(write_address(i, regs) is None);
}

/// A child that returned or jumped into the parent's code goes on in its own copy, as far from the
/// start as before, with the trap flag set, and the frame pointer is translated with it; if the code
/// was not copied the child is killed, with that address.
pub proof fn law_stale_code_is_left(
    regs: RegistersView,
    map: Seq<relocations::RelocatedRange>,
    q: int,
)
    requires
        regs.gpr.len() == 16,
        relocations::all_fit(map),
        relocations::is_first_with(map, regs.rip, q),
    ensures
        ({
            let (after, action) = trap_step(regs, Some(map), false);
            &&& map[q].dest_base matches Some(d) ==> {
                &&& after.rip - d == regs.rip - map[q].source_start
                &&& after.eflags & 0x100 == 0x100
                &&& after.gpr.len() == 16
                &&& after.gpr[5] == match relocations::translation(map, regs.gpr[5]) {
                    Some(b) => b,
                    None => regs.gpr[5],
                }
                &&& forall|n: int|
                    0 <= n < 16 && n != 5 ==> #[trigger] after.gpr[n] == regs.gpr[n]
                &&& !(action matches StepAction::Finish {
                    outcome: StepOutcome::StalePointer { address, is_write },
                    heal,
                })
                &&& regs.gpr[4] >= 8 && relocations::in_dest(map, (regs.gpr[4] - 8) as u64) ==> (
                action matches StepAction::ReadReturnSlot { slot, stale, translated } && slot
                    == regs.gpr[4] - 8 && stale == regs.rip && translated == after.rip)
            }
            &&& map[q].dest_base is None ==> after == regs && action == (StepAction::Finish {
                outcome: StepOutcome::StalePointer { address: regs.rip, is_write: false },
                heal: None,
            })
        }),
{
    relocations::law_translation_is_an_offset(map, regs.rip, q);
    assert(map[q].has_source(regs.rip));
    let e = regs.eflags;
    assert((e | 0x100) & 0x100 == 0x100) by (bit_vector);
}

/// A child in its own code is inspected before each instruction and stays under the trap flag; one
/// that has left its code, and a thread that is not verified, run freely without it. A trap of the
/// code watchpoint changes nothing.
pub proof fn law_own_code_is_inspected(regs: RegistersView, map: Seq<relocations::RelocatedRange>)
    requires
        !relocations::in_source(map, regs.rip),
    ensures
        relocations::in_dest(map, regs.rip) ==> trap_step(regs, Some(map), false).1
            == (StepAction::ReadCode { address: regs.rip }) && trap_step(
            regs,
            Some(map),
            false,
        ).0.eflags & 0x100 == 0x100,
        !relocations::in_dest(map, regs.rip) ==> trap_step(regs, Some(map), false).1
            == (StepAction::Finish { outcome: StepOutcome::Continue, heal: None }) && trap_step(
            regs,
            Some(map),
            false,
        ).0.eflags & 0x100 == 0,
        trap_step(regs, Some(map), false).0.gpr == regs.gpr,
        trap_step(regs, Some(map), false).0.rip == regs.rip,
        trap_step(regs, None, false).0.eflags & 0x100 == 0,
        trap_step(regs, None, false).0.gpr == regs.gpr,
        trap_step(regs, None, false).0.rip == regs.rip,
        trap_step(regs, None, false).1 == (StepAction::Finish {
            outcome: StepOutcome::Continue,
            heal: None,
        }),
        trap_step(regs, Some(map), true) == (
            regs,
            StepAction::Finish { outcome: StepOutcome::Continue, heal: None },
        ),
{
    let e = regs.eflags;
    assert((e | 0x100) & 0x100 == 0x100) by (bit_vector);
    assert((e & !0x100u32) & 0x100 == 0) by (bit_vector);
}

/// The trap flag is the only flag that a trap changes.
pub proof fn law_only_the_trap_flag_changes(
    regs: RegistersView,
    map: Option<Seq<relocations::RelocatedRange>>,
    rearmed: bool,
)
    ensures
        trap_step(regs, map, rearmed).0.eflags | 0x100 == regs.eflags | 0x100,
{
    let e = regs.eflags;
    assert((e | 0x100) | 0x100 == e | 0x100) by (bit_vector);
    assert((e & !0x100u32) | 0x100 == e | 0x100) by (bit_vector);
}

/// A call or jump through a slot of the child's memory outside its heap has the slot read first, and
/// a slot that holds an address of the parent is healed with its translation, in place.
pub proof fn law_stale_branch_slots_are_healed(
    i: instruction::InstructionView,
    regs: RegistersView,
    chain: Option<LastLoad>,
    map: Seq<relocations::RelocatedRange>,
    a: u64,
    word: u64,
    q: int,
)
    requires
        !i.operation.invalid,
        i.operation.call_near_indirect || i.operation.jmp_near_indirect,
        operand_address(i, regs) == Some(a),
        relocations::in_dest(map, a),
        !relocations::in_dest_heap(map, a),
        !relocations::in_source(map, a),
        write_address(i, regs) matches Some(w) ==> !relocations::in_source(map, w),
        relocations::all_fit(map),
        relocations::is_first_with(map, word, q),
        map[q].dest_base is Some,
    ensures
        code_step(i, regs, chain, map) == (StepView {
            regs,
            chain,
            action: StepAction::ReadTarget { address: a },
        }),
        heal_of(settled(i, regs, chain, map, target_heal(a, Some(word), map)).action) matches Some(
            h,
        ) && h.address == a && h.value - map[q].dest_base->0 == word - map[q].source_start,
        target_heal(a, None, map) is None,
{
    relocations::law_translation_is_an_offset(map, word, q);
}

/// A call or jump to a stale address in a register heals the slot that the address was loaded from,
/// constants added since taken into account: the slot, if it lies in the child's memory outside the
/// heap, gets the translation of the word that was loaded.
pub proof fn law_stale_branch_registers_are_healed(
    i: instruction::InstructionView,
    regs: RegistersView,
    c: LastLoad,
    map: Seq<relocations::RelocatedRange>,
    n: int,
    q: int,
)
    requires
        !i.operation.invalid,
        i.operation.call_near_indirect || i.operation.jmp_near_indirect,
        operand_address(i, regs) is None,
        write_address(i, regs) matches Some(w) ==> !relocations::in_source(map, w),
        i.kinds.len() > 0,
        i.kinds[0] == instruction::KIND_REGISTER,
        regs.gpr.len() == 16,
        0 <= n < 16,
        i.registers.op0.full - instruction::REGISTER_RAX == n,
        i.registers.op0.size == 8,
        relocations::in_source(map, regs.gpr[n]),
        regs.gpr[n] == c.current(),
        relocations::in_dest(map, c.load_address),
        !relocations::in_dest_heap(map, c.load_address),
        relocations::all_fit(map),
        relocations::is_first_with(map, c.loaded_value, q),
        map[q].dest_base is Some,
    ensures
        heal_of(code_step(i, regs, Some(c), map).action) matches Some(h) && h.address
            == c.load_address && h.value - map[q].dest_base->0 == c.loaded_value
            - map[q].source_start,
        code_step(i, regs, Some(c), map).regs == regs,
{
    relocations::law_translation_is_an_offset(map, c.loaded_value, q);
}

/// A load of a general register from memory outside the child's heap is followed: what is known
/// afterwards is the slot, the word and the register, with nothing added yet. A `lea` is no load.
pub proof fn law_loads_are_followed(
    i: instruction::InstructionView,
    regs: RegistersView,
    chain: Option<LastLoad>,
    map: Seq<relocations::RelocatedRange>,
    heal: Option<Heal>,
    a: u64,
    word: u64,
)
    requires
        operand_address(i, regs) == Some(a),
        i.kinds.len() == 2,
        i.kinds[0] == instruction::KIND_REGISTER,
        i.kinds[1] == instruction::KIND_MEMORY,
        names_general(i.registers.op0),
    ensures
        !relocations::in_dest_heap(map, a) && i.operation.mnemonic != instruction::MNEMONIC_LEA
            ==> settled(i, regs, chain, map, heal).action == (StepAction::ReadLoad {
            heal,
            address: a,
        }) && settled(i, regs, chain, map, heal).chain == chain,
        relocations::in_dest_heap(map, a) || i.operation.mnemonic == instruction::MNEMONIC_LEA ==> !(
        settled(i, regs, chain, map, heal).action is ReadLoad),
        loaded(i, chain, a, Some(word)) matches Some(c) && c.load_address == a && c.loaded_value
            == word && c.current() == word && c.register == i.registers.op0.full,
{
}

/// What is known of the last load is kept only as long as it is true: any write to the register other
/// than the addition of a constant ends it, and an instruction that does not write the register
/// leaves it as it is.
pub proof fn law_chain_ends_with_other_writes(i: instruction::InstructionView, c: LastLoad, j: int)
    requires
        constant_delta(i, c.register) is None,
    ensures
        0 <= j < i.accesses.len() && i.accesses[j].full == c.register && 3 <= i.accesses[j].access
            <= 6 ==> advanced(i, Some(c)) is None,
        (forall|k: int|
            0 <= k < i.accesses.len() ==> !((#[trigger] i.accesses[k]).full == c.register && 3
                <= i.accesses[k].access <= 6)) ==> advanced(i, Some(c)) == Some(c),
        advanced(i, None) is None,
{
    if 0 <= j < i.accesses.len() && i.accesses[j].full == c.register && 3 <= i.accesses[j].access
        <= 6 {
        assert(instruction::writes(i.accesses[j].access));
        assert(clobbers(i, c.register));
    }
    if clobbers(i, c.register) {
        let k = choose|k: int|
            0 <= k < i.accesses.len() && (#[trigger] i.accesses[k]).full == c.register
                && instruction::writes(i.accesses[k].access);
        assert(i.accesses[k].full == c.register && 3 <= i.accesses[k].access <= 6);
    }
}

/// The constants that are followed: an immediate that is added counts as it is, one that is
/// subtracted counts negative, and a `lea` of the register itself counts its displacement.
pub proof fn law_constants_count_as_they_are(i: instruction::InstructionView, register: u32)
    requires
        i.kinds.len() == 2,
        i.kinds[0] == instruction::KIND_REGISTER,
        i.registers.op0.full == register,
    ensures
        i.operation.mnemonic == instruction::MNEMONIC_ADD && i.kinds[1]
            == instruction::KIND_IMMEDIATE8TO64 ==> constant_delta(i, register) == Some(
            i.operation.immediate8to64,
        ),
        i.operation.mnemonic == instruction::MNEMONIC_ADD && i.kinds[1]
            == instruction::KIND_IMMEDIATE32TO64 ==> constant_delta(i, register) == Some(
            i.operation.immediate32to64,
        ),
        i.operation.mnemonic == instruction::MNEMONIC_SUB && i.kinds[1]
            == instruction::KIND_IMMEDIATE8TO64 && i.operation.immediate8to64 != i64::MIN ==> (
        constant_delta(i, register) matches Some(d) && d + i.operation.immediate8to64 == 0),
        i.operation.mnemonic == instruction::MNEMONIC_SUB && i.kinds[1]
            == instruction::KIND_IMMEDIATE32TO64 && i.operation.immediate32to64 != i64::MIN ==> (
        constant_delta(i, register) matches Some(d) && d + i.operation.immediate32to64 == 0),
        i.operation.mnemonic == instruction::MNEMONIC_LEA && i.kinds[1] == instruction::KIND_MEMORY
            && i.registers.base.register == register && i.registers.index.register
            == instruction::REGISTER_NONE ==> constant_delta(i, register) == Some(
            i.operation.displacement as i64,
        ),
        i.operation.mnemonic != instruction::MNEMONIC_ADD && i.operation.mnemonic
            != instruction::MNEMONIC_SUB && i.operation.mnemonic != instruction::MNEMONIC_LEA
            ==> constant_delta(i, register) is None,
        i.operation.mnemonic == instruction::MNEMONIC_ADD && i.kinds[1]
            == instruction::KIND_IMMEDIATE8 ==> (constant_delta(i, register) matches Some(d) && d
            == if i.operation.immediate8 < 0x80 {
            i.operation.immediate8 as int
        } else {
            i.operation.immediate8 - 0x100
        }),
        i.operation.mnemonic == instruction::MNEMONIC_ADD && i.kinds[1]
            == instruction::KIND_IMMEDIATE32 ==> (constant_delta(i, register) matches Some(d) && d
            == if i.operation.immediate32 < 0x8000_0000 {
            i.operation.immediate32 as int
        } else {
            i.operation.immediate32 - 0x1_0000_0000
        }),
        i.operation.mnemonic == instruction::MNEMONIC_ADD && i.kinds[1]
            == instruction::KIND_IMMEDIATE64 ==> (constant_delta(i, register) matches Some(d) && d
            == if i.operation.immediate64 < 0x8000_0000_0000_0000 {
            i.operation.immediate64 as int
        } else {
            i.operation.immediate64 - 0x1_0000_0000_0000_0000
        }),
{
    let a = i.operation.immediate8;
    let b = i.operation.immediate32;
    let c = i.operation.immediate64;
    assert(a < 0x80 ==> (a as i8) as i64 == a) by (bit_vector);
    assert(a >= 0x80 ==> (a as i8) as i64 == a - 0x100) by (bit_vector);
    assert(b < 0x8000_0000 ==> (b as i32) as i64 == b) by (bit_vector);
    assert(b >= 0x8000_0000 ==> (b as i32) as i64 == b - 0x1_0000_0000) by (bit_vector);
    assert(c < 0x8000_0000_0000_0000 ==> c as i64 == c) by (bit_vector);
    assert(c >= 0x8000_0000_0000_0000 ==> c as i64 == c - 0x1_0000_0000_0000_0000) by (bit_vector);
}

/// A subtraction is the addition of the same constant with the other sign, whatever its width, and a
/// constant is followed in no register but the one it is added to.
pub proof fn law_subtraction_is_negative_addition(
    i: instruction::InstructionView,
    j: instruction::InstructionView,
    register: u32,
)
    requires
        i.operation.mnemonic == instruction::MNEMONIC_ADD,
        j == (instruction::InstructionView {
            operation: instruction::Operation {
                mnemonic: instruction::MNEMONIC_SUB,
                ..i.operation
            },
            ..i
        }),
    ensures
        constant_delta(i, register) is Some <==> constant_delta(j, register) is Some,
        constant_delta(i, register) matches Some(d) ==> (d != i64::MIN ==> constant_delta(
            j,
            register,
        ) == Some((-d) as i64)),
        i.registers.op0.full != register ==> constant_delta(i, register) is None,
{
}

/// The code watchpoint is set over the copy of every code range, from its first address to its end,
/// and over nothing else.
pub proof fn law_all_copied_code_is_watched(map: Seq<relocations::RelocatedRange>, q: int, k: int)
    requires
        relocations::all_fit(map),
    ensures
        0 <= q < map.len() && map[q].executable && map[q].dest_base is Some ==> exists|j: int|
            0 <= j < code_copies(map).len() && (#[trigger] code_copies(map)[j]).0
                == map[q].dest_base->0 && code_copies(map)[j].1 - code_copies(map)[j].0
                == map[q].source_end - map[q].source_start,
        0 <= k < code_copies(map).len() ==> exists|p: int|
            0 <= p < map.len() && (#[trigger] map[p]).executable && map[p].dest_base == Some(
                code_copies(map)[k].0,
            ) && code_copies(map)[k].1 - code_copies(map)[k].0 == map[p].source_end
                - map[p].source_start,
    decreases map.len(),
{
    if map.len() > 0 {
        let front = map.drop_last();
        let rest = code_copies(front);
        let all = code_copies(map);
        let last = map.len() - 1;
        assert(map[last].fits());
        assert forall|p: int| 0 <= p < front.len() implies (#[trigger] front[p]).fits() by {
            assert(map[p].fits());
        }
        law_all_copied_code_is_watched(front, q, k);
        if 0 <= q < map.len() && map[q].executable && map[q].dest_base is Some {
            if q == last {
                let j = all.len() - 1;
                assert(all[j].0 == map[q].dest_base->0);
            } else {
                assert(front[q] == map[q]);
                let j = choose|j: int|
                    0 <= j < rest.len() && (#[trigger] rest[j]).0 == map[q].dest_base->0
                        && rest[j].1 - rest[j].0 == map[q].source_end - map[q].source_start;
                assert(all[j] == rest[j]);
            }
        }
        if 0 <= k < all.len() {
            if k < rest.len() {
                let p = choose|p: int|
                    0 <= p < front.len() && (#[trigger] front[p]).executable && front[p].dest_base
                        == Some(rest[k].0) && rest[k].1 - rest[k].0 == front[p].source_end
                        - front[p].source_start;
                assert(map[p].executable);
            } else {
                assert(map[last].executable);
            }
        }
    }
}

/// What is known of the last load stays true of an instruction that adds a constant: such an
/// instruction is no load, and the value that the register is said to carry grows by that constant.
pub proof fn law_chain_follows_constants(
    i: instruction::InstructionView,
    c: LastLoad,
    regs: RegistersView,
    map: Seq<relocations::RelocatedRange>,
)
    requires
        constant_delta(i, c.register) is Some,
    ensures
        tracked_load(i, regs, map) is None,
        advanced(i, Some(c)) is Some,
        advanced(i, Some(c))->0.loaded_value == c.loaded_value,
        advanced(i, Some(c))->0.load_address == c.load_address,
        advanced(i, Some(c))->0.register == c.register,
        advanced(i, Some(c))->0.current() == wrapping_sum(
            c.current(),
            constant_delta(i, c.register)->0 as u64,
        ),
{
    let d = constant_delta(i, c.register)->0;
    lemma_signed_offset(c.loaded_value, c.offset, d);
}

#[verifier::spinoff_prover]
proof fn lemma_signed_offset(v: u64, a: i64, b: i64)
    ensures
        wrapping_sum(v, wrapping_signed_sum(a, b) as u64) == wrapping_sum(
            wrapping_sum(v, a as u64),
            b as u64,
        ),
{
    let m: int = 0x1_0000_0000_0000_0000;
    assert(a >= 0 ==> a as u64 == a) by (bit_vector);
    assert(a < 0 ==> a as u64 == a + 0x1_0000_0000_0000_0000) by (bit_vector);
    assert(b >= 0 ==> b as u64 == b) by (bit_vector);
    assert(b < 0 ==> b as u64 == b + 0x1_0000_0000_0000_0000) by (bit_vector);
    let s = wrapping_signed_sum(a, b);
    assert(s >= 0 ==> s as u64 == s) by (bit_vector);
    assert(s < 0 ==> s as u64 == s + 0x1_0000_0000_0000_0000) by (bit_vector);
    let x = a as u64 as int;
    let y = b as u64 as int;
    let z = s as u64 as int;
    assert(z == x + y || z == x + y - m);
    assert(z == (x + y) % m) by {
        if z == x + y {
            vstd::arithmetic::div_mod::lemma_small_mod(z as nat, m as nat);
        } else {
            vstd::arithmetic::div_mod::lemma_small_mod(z as nat, m as nat);
            vstd::arithmetic::div_mod::lemma_mod_add_multiples_vanish(z, m);
        }
    }
    vstd::arithmetic::div_mod::lemma_add_mod_noop_right(v as int, x + y, m);
    vstd::arithmetic::div_mod::lemma_add_mod_noop_right(y, v + x, m);
    assert((v + (x + y) % m) % m == (v + (x + y)) % m);
    assert((y + (v + x) % m) % m == (y + (v + x)) % m);
    assert(v + (x + y) == y + (v + x));
}

/// The bits to add to the flags when a thread enters guest mode: the trap flag for a thread under
/// verification.
pub fn entry_eflags_tf(verifying: bool) -> (r: u32)
    ensures
        r == if verifying {
            EFLAGS_TF
        } else {
            0
        },
{
    if verifying {
        EFLAGS_TF
    } else {
        0
    }
}

/// How many of `want` bytes from `rip` on can be read, given whether the page after the one that
/// holds `rip` is readable: all of them, or those up to the end of the page.
pub fn readable_code_len(rip: usize, want: usize, next_page_readable: bool) -> (r: usize)
    ensures
        r == if 4096 - rip % 4096 >= want || next_page_readable {
            want as int
        } else {
            4096 - rip % 4096
        },
        r <= want,
{
    let to_page_end: usize = memory::PAGE_SIZE - rip % memory::PAGE_SIZE;
    if to_page_end >= want || next_page_readable {
        want
    } else {
        to_page_end
    }
}

/// Whether the word at `addr` may be read for a diagnostic: the address is not null, aligned, and
/// readable.
pub fn stack_word_readable(addr: usize, region: Option<memory::MemoryRegion>) -> (r: bool)
    ensures
        r == (addr != 0 && addr % 8 == 0 && memory::readable(region)),
{
    addr != 0 && addr % 8 == 0 && memory::is_readable(region)
}

/// How to write a word at an address that may be protected.
#[derive(Debug, Clone, Copy, PartialEq, Eq, Structural)]
pub enum WritePlan {
    /// Write it.
    Direct,
    /// Make the page writable, write the word, and restore the protection found.
    Widen,
    /// Leave it: the address is not accessible.
    Skip,
}

/// How to write a word at an address in `region`.
pub fn write_plan(region: Option<memory::MemoryRegion>) -> (r: WritePlan)
    ensures
        r == if memory::writable(region) {
            WritePlan::Direct
        } else if memory::readable(region) {
            WritePlan::Widen
        } else {
            WritePlan::Skip
        },
{
    if memory::is_writable(region) {
        WritePlan::Direct
    } else if !memory::is_readable(region) {
        WritePlan::Skip
    } else {
        WritePlan::Widen
    }
}

/// An exception as the processor reports it.
#[derive(Debug, Clone, Copy, PartialEq, Eq)]
pub struct ExceptionRecord {
    pub code: u32,
    pub flags: u32,
    pub address: usize,
    pub number_parameters: u32,
    pub information: [usize; 15],
}

/// The access violation that stands for a detected stale pointer: `template` with the code, the
/// access kind and the address replaced.
pub fn access_violation_record(template: &ExceptionRecord, address: usize, is_write: bool) -> (r:
    ExceptionRecord)
    ensures
        r.code == memory::EXCEPTION_ACCESS_VIOLATION,
        r.flags == template.flags,
        r.address == template.address,
        r.number_parameters == 2,
        r.information@ == template.information@.update(
            0,
            if is_write {
                1usize
            } else {
                0usize
            },
        ).update(1, address),
{
    let mut record = *template;
    record.code = memory::EXCEPTION_ACCESS_VIOLATION;
    record.number_parameters = 2;
    record.information[0] = if is_write {
        1
    } else {
        0
    };
    record.information[1] = address;
    record
}

/// The number of ranges that the code watchpoint can hold.
pub const MAX_WATCHED: usize = 8;

/// A watchpoint over the code of a forked child: ranges whose pages are not writable, and the page
/// that is writable for one instruction.
#[derive(Debug, PartialEq, Eq)]
pub struct CodeWatch {
    ranges: Vec<(usize, usize)>,
    pending_rearm: usize,
}

impl CodeWatch {
    /// The watched ranges, as pairs of a first address and an end.
    pub closed spec fn watched(self) -> Seq<(usize, usize)> {
        self.ranges@
    }

    /// Whether one of the watched ranges holds the address.
    pub open spec fn watches(self, addr: usize) -> bool {
        exists|i: int|
            0 <= i < self.watched().len() && (#[trigger] self.watched()[i]).0 <= addr
                < self.watched()[i].1
    }

    /// The address whose page is to be protected again, or 0.
    pub closed spec fn pending(self) -> usize {
        self.pending_rearm
    }

    #[verifier::type_invariant]
    spec fn well_formed(self) -> bool {
        self.ranges@.len() <= MAX_WATCHED
    }

    /// A watchpoint over nothing.
    pub fn new() -> (r: Self)
        ensures
            r.watched() == Seq::<(usize, usize)>::empty(),
            r.pending() == 0,
    {
        CodeWatch { ranges: Vec::new(), pending_rearm: 0 }
    }

    /// Whether `addr` lies in a watched range.
    pub fn contains(&self, addr: usize) -> (r: bool)
        ensures
            r == self.watches(addr),
    {
        let mut i: usize = 0;
        while i < self.ranges.len()
            invariant
                i <= self.ranges@.len(),
                forall|j: int|
                    0 <= j < i ==> !((#[trigger] self.ranges@[j]).0 <= addr < self.ranges@[j].1),
            decreases self.ranges@.len() - i,
        {
            let range = self.ranges[i];
            if range.0 <= addr && addr < range.1 {
                assert(self.watched()[i as int].0 <= addr);
                return true;
            }
            i += 1;
        }
        false
    }

    /// Whether another range can be watched.
    pub fn has_room(&self) -> (r: bool)
        ensures
            r == (self.watched().len() < MAX_WATCHED),
    {
        self.ranges.len() < MAX_WATCHED
    }

    /// Records a range, `protected` saying whether its pages were made read-only. Returns whether
    /// the range is watched now: it is unless that failed or the table was full.
    pub fn arm(&mut self, start: usize, end: usize, protected: bool) -> (r: bool)
        ensures
            r == (protected && old(self).watched().len() < MAX_WATCHED),
            final(self).watched() == if r {
                old(self).watched().push((start, end))
            } else {
                old(self).watched()
            },
            final(self).pending() == old(self).pending(),
    {
        proof {
            use_type_invariant(&*self);
        }
        if self.ranges.len() >= MAX_WATCHED || !protected {
            return false;
        }
        let mut ranges: Vec<(usize, usize)> = Vec::new();
        std::mem::swap(&mut ranges, &mut self.ranges);
        ranges.push((start, end));
        self.ranges = ranges;
        true
    }

    /// Forgets all watched ranges.
    pub fn reset(&mut self)
        ensures
            final(self).watched() == Seq::<(usize, usize)>::empty(),
            final(self).pending() == old(self).pending(),
    {
        self.ranges = Vec::new();
    }

    /// Notes that the page of `addr` is writable until the next trap.
    pub fn set_pending_rearm(&mut self, addr: usize)
        ensures
            final(self).pending() == addr,
            final(self).watched() == old(self).watched(),
    {
        proof {
            use_type_invariant(&*self);
        }
        self.pending_rearm = addr;
    }

    /// Takes the page that is to be protected again, if a write was being stepped over.
    pub fn on_single_step_rearm(&mut self) -> (r: Option<usize>)
        ensures
            r == if old(self).pending() == 0 {
                None
            } else {
                Some(memory::page_of(old(self).pending()))
            },
            final(self).pending() == 0,
            final(self).watched() == old(self).watched(),
    {
        proof {
            use_type_invariant(&*self);
        }
        let addr: usize = self.pending_rearm;
        self.pending_rearm = 0;
        if addr == 0 {
            None
        } else {
            Some(memory::page_start(addr))
        }
    }

    /// Handles an access violation that may be a trapped write to watched code. Returns the page to
    /// make writable if it is: the faulting instruction is then stepped over.
    pub fn on_codewatch_write(
        &mut self,
        enabled: bool,
        access: usize,
        address: usize,
        regs: &mut ThreadRegisters,
    ) -> (r: Option<usize>)
        ensures
            ({
                let ours = enabled && access == 1 && exists|i: int|
                    0 <= i < old(self).watched().len() && (#[trigger] old(self).watched()[i]).0
                        <= address < old(self).watched()[i].1;
                &&& r == if ours {
                    Some(memory::page_of(address))
                } else {
                    None
                }
                &&& final(self).watched() == old(self).watched()
                &&& final(self).pending() == if ours {
                    address
                } else {
                    old(self).pending()
                }
                &&& final(regs)@ == if ours {
                    with_trap(old(regs)@, true)
                } else {
                    old(regs)@
                }
            }),
    {
        if !enabled || access != 1 || !self.contains(address) {
            return None;
        }
        self.set_pending_rearm(address);
        regs.eflags = regs.eflags | EFLAGS_TF;
        Some(memory::page_start(address))
    }

    /// Consumes the step over a trapped write when it lands in host code. Returns the page to
    /// protect again if the trap was the watchpoint's.
    pub fn on_codewatch_step(&mut self, enabled: bool, regs: &mut ThreadRegisters) -> (r: Option<
        usize,
    >)
        ensures
            ({
                let ours = enabled && old(self).pending() != 0;
                &&& r == if ours {
                    Some(memory::page_of(old(self).pending()))
                } else {
                    None
                }
                &&& final(self).watched() == old(self).watched()
                &&& final(self).pending() == if enabled {
                    0
                } else {
                    old(self).pending()
                }
                &&& final(regs)@ == if ours {
                    with_trap(old(regs)@, false)
                } else {
                    old(regs)@
                }
            }),
    {
        if !enabled {
            return None;
        }
        let page = self.on_single_step_rearm();
        if page.is_some() {
            regs.eflags = regs.eflags & !EFLAGS_TF;
        }
        page
    }
}

/// The copies of the map's code ranges, as pairs of a first address and an end, in order.
pub open spec fn code_copies(map: Seq<relocations::RelocatedRange>) -> Seq<(u64, u64)>
    decreases map.len(),
{
    if map.len() == 0 {
        Seq::empty()
    } else {
        let rest = code_copies(map.drop_last());
        let last = map.last();
        match last.dest_base {
            Some(d) => if last.executable {
                rest.push((d, (d + (last.source_end - last.source_start)) as u64))
            } else {
                rest
            },
            None => rest,
        }
    }
}

/// The ranges to arm the code watchpoint over.
pub fn codewatch_ranges(map: &AddressRelocations) -> (r: Vec<(u64, u64)>)
    ensures
        r@ == code_copies(map@),
{
    let ranges = map.ranges();
    let mut out: Vec<(u64, u64)> = Vec::new();
    let mut i: usize = 0;
    while i < ranges.len()
        invariant
            i <= ranges@.len(),
            relocations::all_fit(ranges@),
            out@ == code_copies(ranges@.take(i as int)),
        decreases ranges@.len() - i,
    {
        let range = ranges[i];
        assert(ranges@[i as int].fits());
        assert(ranges@.take(i + 1).drop_last() =~= ranges@.take(i as int));
        if range.executable {
            if let Some(d) = range.dest_base {
                out.push((d, d + (range.source_end - range.source_start)));
            }
        }
        i += 1;
    }
    assert(ranges@.take(i as int) =~= ranges@);
    out
}

/// The first address of the bytes shown around a crash: up to sixteen before `rip`, from the same
/// page.
pub fn crash_window_start(rip: usize) -> (r: usize)
    ensures
        r == if rip % 4096 >= 16 {
            rip - 16
        } else {
            rip - rip % 4096
        },
{
    let offset: usize = rip % memory::PAGE_SIZE;
    let page: usize = rip - offset;
    page + offset.saturating_sub(16)
}

/// No child resumes with its registers as they are when it is about to write to the parent's memory:
/// [`on_instruction`] either ends it, with the address, or has translated a register that forms the
/// address.
pub proof fn law_child_never_writes_to_the_parent(
    i: &Instruction,
    regs: &mut ThreadRegisters,
    chain: &mut Option<LastLoad>,
    map: &AddressRelocations,
    r: StepAction,
    q: int,
    a: u64,
)
    requires
        call_ensures(on_instruction, (i, regs, chain, map), r),
        !i.operation.invalid,
        write_address(i@, old(regs)@) == Some(a),
        0 <= q < map@.len(),
        map@[q].source_start <= a < map@[q].source_end,
    ensures
        r == (StepAction::Finish {
            outcome: StepOutcome::StalePointer { address: a, is_write: true },
            heal: None,
        }) || r == (StepAction::Finish { outcome: StepOutcome::Continue, heal: None }) && repaired(
            i@,
            old(regs)@,
            map@,
            0,
        ).1 && final(regs)@ == repaired(i@, old(regs)@, map@, 0).0,
{
    law_no_write_reaches_the_parent(i@, old(regs)@, *old(chain), map@, q, a);
}

/// A stale return address is healed where it was taken from, and only while it still stands there.
pub proof fn law_return_slots_are_healed(
    slot: u64,
    stale: u64,
    translated: u64,
    word: Option<u64>,
    r: StepAction,
)
    requires
        call_ensures(on_return_slot, (slot, stale, translated, word), r),
    ensures
        word == Some(stale) ==> heal_of(r) == Some(Heal { address: slot, value: translated }),
        word != Some(stale) ==> heal_of(r) is None,
        r is Finish,
        r->outcome == StepOutcome::Continue,
{
}

/// As much code is read as can be: from the page that holds the instruction in any case, and across
/// its end only if the next page is readable.
pub proof fn law_code_is_read_up_to_unreadable_pages(
    rip: usize,
    want: usize,
    next_page_readable: bool,
    r: usize,
)
    requires
        call_ensures(readable_code_len, (rip, want, next_page_readable), r),
    ensures
        r <= want,
        next_page_readable ==> r == want,
        !next_page_readable && r > 0 ==> (rip + r - 1) / 4096 == rip as int / 4096,
        !next_page_readable && r < want ==> (rip + r) % 4096 == 0,
{
}

/// A word is written only where the memory is accessible, and its protection is widened only where it
/// does not permit writing.
pub proof fn law_words_are_written_where_they_can_be(
    region: Option<memory::MemoryRegion>,
    r: WritePlan,
)
    requires
        call_ensures(write_plan, (region,), r),
    ensures
        r == WritePlan::Direct <==> memory::writable(region),
        r == WritePlan::Skip ==> !memory::readable(region) && !memory::writable(region),
        r == WritePlan::Widen ==> memory::readable(region) && !memory::writable(region),
{
}

/// The exception that stands for a stale pointer is an access violation at that address, told to be a
/// write if it was one; the rest is that of the exception it replaces.
pub proof fn law_stale_pointers_look_like_violations(
    template: &ExceptionRecord,
    address: usize,
    is_write: bool,
    r: ExceptionRecord,
)
    requires
        call_ensures(access_violation_record, (template, address, is_write), r),
    ensures
        r.code == 0xC000_0005,
        r.number_parameters == 2,
        is_write ==> r.information@[0] == 1,
        !is_write ==> r.information@[0] == 0,
        r.information@[1] == address,
        forall|k: int| 2 <= k < 15 ==> #[trigger] r.information@[k] == template.information@[k],
        r.address == template.address,
{
}

/// A write to watched code is let through once: its page is made writable, the write is stepped over,
/// and the very page is protected again at the next trap, after which nothing is pending.
pub proof fn law_watched_page_is_protected_again(
    watch: &mut CodeWatch,
    address: usize,
    regs: &mut ThreadRegisters,
    opened: Option<usize>,
    later: &mut CodeWatch,
    closed: Option<usize>,
    k: int,
)
    requires
        call_ensures(CodeWatch::on_codewatch_write, (watch, true, 1usize, address, regs), opened),
        0 <= k < old(watch).watched().len(),
        old(watch).watched()[k].0 <= address < old(watch).watched()[k].1,
        address != 0,
        *old(later) == *final(watch),
        call_ensures(CodeWatch::on_single_step_rearm, (later,), closed),
    ensures
        opened is Some,
        opened->0 <= address < opened->0 + 4096,
        closed == opened,
        final(regs)@.eflags & 0x100 == 0x100,
        final(later).pending() == 0,
        final(later).watched() == old(watch).watched(),
{
    let e = old(regs)@.eflags;
    assert((e | 0x100) & 0x100 == 0x100) by (bit_vector);
}

/// A trap is judged before anything is read: [`on_single_step`] sends a child in the parent's code to
/// its own, has its own code read where it stands, and lets a thread that is not verified go.
pub proof fn law_traps_are_judged(
    regs: &mut ThreadRegisters,
    map: &AddressRelocations,
    r: StepAction,
    q: int,
)
    requires
        call_ensures(on_single_step, (regs, Some(map), false), r),
        relocations::all_fit(map@),
    ensures
        relocations::is_first_with(map@, old(regs)@.rip, q) && map@[q].dest_base is Some ==> final(regs)@.rip - map@[q].dest_base->0 == old(regs)@.rip - map@[q].source_start,
        relocations::is_first_with(map@, old(regs)@.rip, q) && map@[q].dest_base is None ==> r == (
        StepAction::Finish {
            outcome: StepOutcome::StalePointer { address: old(regs)@.rip, is_write: false },
            heal: None,
        }),
        !relocations::in_source(map@, old(regs)@.rip) && relocations::in_dest(
            map@,
            old(regs)@.rip,
        ) ==> r == (StepAction::ReadCode { address: old(regs)@.rip }),
{
    if relocations::is_first_with(map@, old(regs)@.rip, q) {
        assert(old(regs)@.gpr.len() == 16);
        law_stale_code_is_left(old(regs)@, map@, q);
    }
}

/// Code is judged by what the decoder says of it at its own address, and without any code nothing is
/// done.
pub proof fn law_code_is_judged_where_it_stands(
    code: &[u8],
    regs: &mut ThreadRegisters,
    chain: &mut Option<LastLoad>,
    map: &AddressRelocations,
    r: (StepAction, Instruction),
)
    requires
        call_ensures(on_code, (code, regs, chain, map), r),
    ensures
        r.1@ == instruction::decoded(code@, old(regs).rip),
        code@.len() == 0 ==> final(regs)@ == old(regs)@ && *final(chain) == *old(chain) && r.0 == (
        StepAction::Finish { outcome: StepOutcome::Continue, heal: None }),
        code@.len() > 0 ==> (StepView { regs: final(regs)@, chain: *final(chain), action: r.0 })
            == code_step(r.1@, old(regs)@, *old(chain), map@),
{
}

/// What was loaded is known with the slot that it came from, and a load that could not be read is
/// treated like any other write to its register.
pub proof fn law_loaded_words_are_known(
    i: &Instruction,
    chain: &mut Option<LastLoad>,
    address: u64,
    word: u64,
    r: StepAction,
)
    requires
        call_ensures(on_load, (i, chain, address, Some(word)), r),
    ensures
        *final(chain) matches Some(c) && c.load_address == address && c.loaded_value == word
            && c.current() == word && c.register == i.registers.op0.full,
        r == (StepAction::Finish { outcome: StepOutcome::Continue, heal: None }),
{
}

/// A branch slot that was read is healed if it holds an address of the parent that was copied, with
/// the translation, and left as it is if not.
pub proof fn law_read_branch_slots_are_healed(
    i: &Instruction,
    regs: &ThreadRegisters,
    chain: &mut Option<LastLoad>,
    map: &AddressRelocations,
    address: u64,
    word: u64,
    r: StepAction,
    q: int,
)
    requires
        call_ensures(on_target, (i, regs, chain, map, address, Some(word)), r),
        relocations::all_fit(map@),
    ensures
        relocations::is_first_with(map@, word, q) && map@[q].dest_base is Some ==> (heal_of(r)
            matches Some(h) && h.address == address && h.value - map@[q].dest_base->0 == word
            - map@[q].source_start),
        !relocations::in_source(map@, word) ==> heal_of(r) is None,
{
    if relocations::is_first_with(map@, word, q) {
        relocations::law_translation_is_an_offset(map@, word, q);
    }
    if !relocations::in_source(map@, word) {
        relocations::law_translation(map@, word);
    }
}

/// A verified thread enters guest mode with the trap flag, and no other does.
pub proof fn law_verified_threads_are_trapped(verifying: bool, r: u32, flags: u32)
    requires
        call_ensures(entry_eflags_tf, (verifying,), r),
    ensures
        verifying ==> (flags | r) & 0x100 == 0x100,
        !verifying ==> flags | r == flags,
{
    assert((flags | 0x100) & 0x100 == 0x100) by (bit_vector);
    assert(flags | 0 == flags) by (bit_vector);
}

/// Around a crash up to sixteen bytes before the instruction are shown, from its own page.
pub proof fn law_crash_window_stays_in_its_page(rip: usize, r: usize)
    requires
        call_ensures(crash_window_start, (rip,), r),
    ensures
        r <= rip <= r + 16,
        r as int / 4096 == rip as int / 4096,
        r + 16 == rip || r as int % 4096 == 0,
{
}

/// A range is watched once it was armed: every address of it is in the watchpoint, until that is
/// reset.
pub proof fn law_armed_ranges_are_watched(
    watch: &mut CodeWatch,
    start: usize,
    end: usize,
    armed: bool,
    now: &CodeWatch,
    a: usize,
    inside: bool,
    later: &mut CodeWatch,
    empty: &CodeWatch,
    after: bool,
)
    requires
        call_ensures(CodeWatch::arm, (watch, start, end, true), armed),
        *now == *final(watch),
        call_ensures(CodeWatch::contains, (now, a), inside),
        *old(later) == *final(watch),
        call_ensures(CodeWatch::reset, (later,), ()),
        *empty == *final(later),
        call_ensures(CodeWatch::contains, (empty, a), after),
        start <= a < end,
    ensures
        armed <==> old(watch).watched().len() < 8,
        armed ==> inside,
        !after,
{
    if armed {
        let k = old(watch).watched().len() as int;
        assert(now.watched() == old(watch).watched().push((start, end)));
        assert(now.watched()[k] == (start, end));
        assert(now.watches(a));
    }
}

/// A register that was written holds the value, and every other one what it held.
pub proof fn law_written_registers_hold_the_value(
    regs: RegistersView,
    full: u32,
    value: u64,
    j: int,
)
    requires
        regs.gpr.len() == 16,
        instruction::REGISTER_RAX <= full < instruction::REGISTER_RAX + 16,
        0 <= j < 16,
    ensures
        with_register(regs, full, value).gpr[full - instruction::REGISTER_RAX] == value,
        j != full - instruction::REGISTER_RAX ==> with_register(regs, full, value).gpr[j]
            == regs.gpr[j],
        with_register(regs, full, value).rip == regs.rip,
        with_register(regs, full, value).eflags == regs.eflags,
{
}

/// A write to watched code that is stepped over is followed by protecting its page again, once: the
/// trap after it gives the page and takes the trap flag away, and the next one is not the
/// watchpoint's.
pub proof fn law_stepped_writes_are_watched_again(
    watch: &mut CodeWatch,
    addr: usize,
    later: &mut CodeWatch,
    regs: &mut ThreadRegisters,
    page: Option<usize>,
    last: &mut CodeWatch,
    other: &mut ThreadRegisters,
    none: Option<usize>,
)
    requires
        addr != 0,
        call_ensures(CodeWatch::set_pending_rearm, (watch, addr), ()),
        *old(later) == *final(watch),
        call_ensures(CodeWatch::on_codewatch_step, (later, true, regs), page),
        *old(last) == *final(later),
        call_ensures(CodeWatch::on_codewatch_step, (last, true, other), none),
    ensures
        page matches Some(p) && p as int % 4096 == 0 && p <= addr < p + 4096,
        final(regs)@.eflags & 0x100 == 0,
        final(regs)@.gpr == old(regs)@.gpr && final(regs)@.rip == old(regs)@.rip,
        none is None,
        final(other)@ == old(other)@,
        final(last).watched() == old(watch).watched(),
{
    let f = old(regs)@.eflags;
    assert((f & !0x100u32) & 0x100 == 0) by (bit_vector);
}

/// A word of the stack is read only at an address that holds a word and can be read.
pub proof fn law_stack_words_are_aligned(
    addr: usize,
    region: Option<memory::MemoryRegion>,
    r: bool,
    can: bool,
)
    requires
        call_ensures(stack_word_readable, (addr, region), r),
        call_ensures(memory::is_readable, (region,), can),
    ensures
        r <==> addr > 0 && addr % 8 == 0 && can,
{
}

/// A change of a register by anything but a constant is not followed: not one of another register,
/// nor the sum with a further register, nor one by what memory or a register holds.
pub proof fn law_other_changes_are_not_followed(
    i: instruction::InstructionView,
    register: u32,
)
    ensures
        i.registers.op0.full != register ==> constant_delta(i, register) is None,
        i.kinds.len() != 2 ==> constant_delta(i, register) is None,
        i.kinds[0] != instruction::KIND_REGISTER ==> constant_delta(i, register) is None,
        i.operation.mnemonic == instruction::MNEMONIC_LEA && i.registers.index.register
            != instruction::REGISTER_NONE ==> constant_delta(i, register) is None,
        i.operation.mnemonic == instruction::MNEMONIC_LEA && i.registers.base.register != register
            ==> constant_delta(i, register) is None,
        i.operation.mnemonic == instruction::MNEMONIC_LEA && i.kinds[1] != instruction::KIND_MEMORY
            ==> constant_delta(i, register) is None,
        i.kinds[1] == instruction::KIND_REGISTER ==> constant_delta(i, register) is None,
        i.kinds[1] == instruction::KIND_MEMORY && i.operation.mnemonic
            != instruction::MNEMONIC_LEA ==> constant_delta(i, register) is None,
{
}

/// Only a load of a word into a general register from memory outside the heap is followed, and at
/// the address that it is read from.
pub proof fn law_only_loads_into_registers_are_followed(
    i: instruction::InstructionView,
    regs: RegistersView,
    map: Seq<relocations::RelocatedRange>,
)
    ensures
        tracked_load(i, regs, map) matches Some(a) ==> {
            &&& operand_address(i, regs) == Some(a)
            &&& i.kinds.len() == 2
            &&& i.kinds[0] == instruction::KIND_REGISTER
            &&& i.kinds[1] == instruction::KIND_MEMORY
            &&& i.operation.mnemonic != instruction::MNEMONIC_LEA
            &&& instruction::REGISTER_RAX <= i.registers.op0.full < instruction::REGISTER_RAX + 16
            &&& !relocations::in_dest_heap(map, a)
        },
{
}

/// A slot is healed only if the stale value came from it: what was loaded there, with what was added
/// since, is that value, the slot is the child's own and not in the heap, and what it is given is the
/// translation of what it held.
pub proof fn law_only_origins_are_healed(
    stale: Option<u64>,
    chain: Option<LastLoad>,
    map: Seq<relocations::RelocatedRange>,
    aligned: bool,
)
    ensures
        origin_heal(stale, chain, map, aligned) matches Some(h) ==> {
            &&& chain matches Some(c)
            &&& stale == Some(c.current())
            &&& c.offset == 0 ==> stale == Some(c.loaded_value)
            &&& h.address == c.load_address
            &&& relocations::in_dest(map, h.address)
            &&& !relocations::in_dest_heap(map, h.address)
            &&& relocations::translation(map, c.loaded_value) == Some(h.value)
            &&& aligned ==> c.loaded_value % 16 == 0
        },
{
}

/// A stale operand is the value of a register that forms the address and lies in the parent's memory,
/// the base before the index; without one neither of them does.
pub proof fn law_stale_operands_lie_in_the_parent(
    i: instruction::InstructionView,
    regs: RegistersView,
    map: Seq<relocations::RelocatedRange>,
)
    ensures
        ({
            let base = register_value_of(i.registers.base, regs);
            let index = register_value_of(i.registers.index, regs);
            let r = stale_operand_value(i, regs, map);
            &&& r matches Some(v) ==> relocations::in_source(map, v) && (base == Some(v) || index
                == Some(v))
            &&& base matches Some(v) ==> (relocations::in_source(map, v) ==> r == base)
            &&& index matches Some(v) ==> (relocations::in_source(map, v) ==> r is Some)
        }),
{
}

/// Only what an indirect branch goes through is looked at as a target: the slot of the child that it
/// reads, outside the heap, or the register that it names, if that lies in the parent's memory.
pub proof fn law_only_branch_targets_are_looked_at(
    i: instruction::InstructionView,
    regs: RegistersView,
    map: Seq<relocations::RelocatedRange>,
)
    ensures
        target_slot(i, regs, map) matches Some(a) ==> {
            &&& i.operation.call_near_indirect || i.operation.jmp_near_indirect
            &&& operand_address(i, regs) == Some(a)
            &&& relocations::in_dest(map, a)
            &&& !relocations::in_dest_heap(map, a)
        },
        stale_target_register(i, regs, map) matches Some(v) ==> {
            &&& i.operation.call_near_indirect || i.operation.jmp_near_indirect
            &&& operand_address(i, regs) is None
            &&& i.kinds.len() > 0
            &&& i.kinds[0] == instruction::KIND_REGISTER
            &&& register_value_of(i.registers.op0, regs) == Some(v)
            &&& relocations::in_source(map, v)
        },
        (i.operation.call_near_indirect || i.operation.jmp_near_indirect) ==> {
            &&& operand_address(i, regs) matches Some(a) ==> (relocations::in_dest(map, a)
                && !relocations::in_dest_heap(map, a) ==> target_slot(i, regs, map) == Some(a))
            &&& operand_address(i, regs) is None && i.kinds.len() > 0 && i.kinds[0]
                == instruction::KIND_REGISTER ==> (register_value_of(i.registers.op0, regs)
                matches Some(v) ==> (relocations::in_source(map, v) ==> stale_target_register(
                i,
                regs,
                map,
            ) == Some(v)))
        },
{
}

/// The slot that is looked at after stale code was left is the word that was just taken off the
/// child's stack, and it is looked at for the address that was left.
pub proof fn law_return_slots_stand_below_the_stack(
    regs: RegistersView,
    map: Seq<relocations::RelocatedRange>,
)
    ensures
        trap_step(regs, Some(map), false).1 matches StepAction::ReadReturnSlot {
            slot,
            stale,
            translated,
        } ==> {
            &&& slot + 8 == regs.gpr[4]
            &&& relocations::in_dest(map, slot)
            &&& stale == regs.rip
            &&& relocations::in_source(map, stale)
            &&& relocations::translation(map, stale) == Some(translated)
        },
{
}

} // verus!
