//! Decoded x86-64 instructions as plain values.
//!
//! The decoder itself is the `iced-x86` crate. Its registers, operand kinds, mnemonics and access
//! kinds appear here as the numbers of that crate's enumerations.

use iced_x86::{Decoder, DecoderOptions, InstructionInfoFactory};
use vstd::prelude::*;

verus! {

/// No register.
pub const REGISTER_NONE: u32 = 0;

/// The first of the sixteen 64-bit general registers, which follow each other in the order of
/// their hardware numbers: `rax`, `rcx`, `rdx`, `rbx`, `rsp`, `rbp`, `rsi`, `rdi`, `r8` to `r15`.
pub const REGISTER_RAX: u32 = 53;

pub const REGISTER_RSP: u32 = 57;

pub const REGISTER_RBP: u32 = 58;

pub const REGISTER_R15: u32 = 68;

pub const REGISTER_EIP: u32 = 69;

pub const REGISTER_RIP: u32 = 70;

pub const KIND_REGISTER: u32 = 0;

pub const KIND_IMMEDIATE8: u32 = 6;

pub const KIND_IMMEDIATE32: u32 = 9;

pub const KIND_IMMEDIATE64: u32 = 10;

pub const KIND_IMMEDIATE8TO64: u32 = 13;

pub const KIND_IMMEDIATE32TO64: u32 = 14;

pub const KIND_MEMORY: u32 = 24;

pub const MNEMONIC_ADD: u32 = 7;

pub const MNEMONIC_LEA: u32 = 374;

pub const MNEMONIC_SUB: u32 = 740;

pub const ACCESS_WRITE: u32 = 3;

pub const ACCESS_COND_WRITE: u32 = 4;

pub const ACCESS_READ_WRITE: u32 = 5;

pub const ACCESS_READ_COND_WRITE: u32 = 6;

/// What an instruction does, apart from its operands.
#[derive(Debug, Clone, Copy, PartialEq, Eq, Structural)]
pub struct Operation {
    pub invalid: bool,
    pub mnemonic: u32,
    pub call_near_indirect: bool,
    pub jmp_near_indirect: bool,
    pub immediate8: u8,
    pub immediate8to64: i64,
    pub immediate32: u32,
    pub immediate32to64: i64,
    pub immediate64: u64,
    pub scale: u32,
    pub displacement: u64,
}

/// A register operand: the register itself, the full register it is part of, and its size in bytes.
#[derive(Debug, Clone, Copy, PartialEq, Eq, Structural)]
pub struct RegisterUse {
    pub register: u32,
    pub full: u32,
    pub size: usize,
}

/// The registers that an instruction's operands name.
#[derive(Debug, Clone, Copy, PartialEq, Eq, Structural)]
pub struct OperandRegisters {
    /// The register of the first operand.
    pub op0: RegisterUse,
    /// The base register of the memory operand.
    pub base: RegisterUse,
    /// The index register of the memory operand.
    pub index: RegisterUse,
}

/// One memory location that an instruction touches.
#[derive(Debug, Clone, Copy, PartialEq, Eq, Structural)]
pub struct MemoryUse {
    pub access: u32,
    pub base: u32,
    pub displacement: u64,
}

/// One full register that an instruction touches.
#[derive(Debug, Clone, Copy, PartialEq, Eq, Structural)]
pub struct RegisterAccess {
    pub full: u32,
    pub access: u32,
}

/// A decoded instruction.
#[derive(Debug, Clone, PartialEq, Eq)]
pub struct Instruction {
    pub operation: Operation,
    pub registers: OperandRegisters,
    /// The kind of each operand, in order.
    pub kinds: Vec<u32>,
    pub memory: Vec<MemoryUse>,
    pub accesses: Vec<RegisterAccess>,
}

/// An instruction with its lists as sequences.
pub struct InstructionView {
    pub operation: Operation,
    pub registers: OperandRegisters,
    pub kinds: Seq<u32>,
    pub memory: Seq<MemoryUse>,
    pub accesses: Seq<RegisterAccess>,
}

impl View for Instruction {
    type V = InstructionView;

    open spec fn view(&self) -> InstructionView {
        InstructionView {
            operation: self.operation,
            registers: self.registers,
            kinds: self.kinds@,
            memory: self.memory@,
            accesses: self.accesses@,
        }
    }
}

/// What the decoder says an encoding at address `ip` does.
pub uninterp spec fn decoded_operation(code: Seq<u8>, ip: u64) -> Operation;

/// Decodes the first instruction of `code` with `Decoder::with_ip` and `Decoder::decode` in 64-bit
/// mode and reads its mnemonic, immediates, memory scale and displacement. The contract names the
/// result: it is a function of the bytes and the address.
#[verifier::external_body]
fn decode_operation(code: &[u8], ip: u64) -> (r: Operation)
    ensures
        r == decoded_operation(code@, ip),
{
    let i = Decoder::with_ip(64, code, ip, DecoderOptions::NONE).decode();
    Operation {
        invalid: i.is_invalid(),
        mnemonic: i.mnemonic() as u32,
        call_near_indirect: i.is_call_near_indirect(),
        jmp_near_indirect: i.is_jmp_near_indirect(),
        immediate8: i.immediate8(),
        immediate8to64: i.immediate8to64(),
        immediate32: i.immediate32(),
        immediate32to64: i.immediate32to64(),
        immediate64: i.immediate64(),
        scale: i.memory_index_scale(),
        displacement: i.memory_displacement64(),
    }
}

/// What the decoder says about the registers that an encoding's operands name.
pub uninterp spec fn decoded_registers(code: Seq<u8>, ip: u64) -> OperandRegisters;

/// Decodes the first instruction of `code` as `decode_operation` does and reads the registers of
/// its operands with `op0_register`, `memory_base` and `memory_index`. The contract names the
/// result.
#[verifier::external_body]
fn decode_registers(code: &[u8], ip: u64) -> (r: OperandRegisters)
    ensures
        r == decoded_registers(code@, ip),
{
    let i = Decoder::with_ip(64, code, ip, DecoderOptions::NONE).decode();
    let (o, b, x) = (i.op0_register(), i.memory_base(), i.memory_index());
    OperandRegisters {
        op0: RegisterUse { register: o as u32, full: o.full_register() as u32, size: o.size() },
        base: RegisterUse { register: b as u32, full: b.full_register() as u32, size: b.size() },
        index: RegisterUse { register: x as u32, full: x.full_register() as u32, size: x.size() },
    }
}

/// What the decoder says about the kind of each operand of an encoding.
pub uninterp spec fn decoded_kinds(code: Seq<u8>, ip: u64) -> Seq<u32>;

/// Decodes the first instruction of `code` as `decode_operation` does and lists its `op_kinds`.
/// The contract names the result.
#[verifier::external_body]
fn decode_kinds(code: &[u8], ip: u64) -> (r: Vec<u32>)
    ensures
        r@ == decoded_kinds(code@, ip),
{
    let i = Decoder::with_ip(64, code, ip, DecoderOptions::NONE).decode();
    i.op_kinds().map(|k| k as u32).collect()
}

/// What the decoder says about the memory that an encoding touches.
pub uninterp spec fn decoded_memory(code: Seq<u8>, ip: u64) -> Seq<MemoryUse>;

/// Decodes the first instruction of `code` as `decode_operation` does and lists the `used_memory`
/// of its `InstructionInfo`. The contract names the result.
#[verifier::external_body]
fn decode_memory(code: &[u8], ip: u64) -> (r: Vec<MemoryUse>)
    ensures
        r@ == decoded_memory(code@, ip),
{
    let i = Decoder::with_ip(64, code, ip, DecoderOptions::NONE).decode();
    let mut factory = InstructionInfoFactory::new();
    let used = factory.info(&i).used_memory().iter();
    used.map(
        |m|
            MemoryUse {
                access: m.access() as u32,
                base: m.base() as u32,
                displacement: m.displacement(),
            },
    ).collect()
}

/// What the decoder says about the registers that an encoding touches.
pub uninterp spec fn decoded_accesses(code: Seq<u8>, ip: u64) -> Seq<RegisterAccess>;

/// Decodes the first instruction of `code` as `decode_operation` does and lists the
/// `used_registers` of its `InstructionInfo`, each as its full register. The contract names the
/// result.
#[verifier::external_body]
fn decode_accesses(code: &[u8], ip: u64) -> (r: Vec<RegisterAccess>)
    ensures
        r@ == decoded_accesses(code@, ip),
{
    let i = Decoder::with_ip(64, code, ip, DecoderOptions::NONE).decode();
    let mut factory = InstructionInfoFactory::new();
    let used = factory.info(&i).used_registers().iter();
    used.map(
        |u|
            RegisterAccess {
                full: u.register().full_register() as u32,
                access: u.access() as u32,
            },
    ).collect()
}

/// The instruction that `code` encodes at address `ip`.
pub open spec fn decoded(code: Seq<u8>, ip: u64) -> InstructionView {
    InstructionView {
        operation: decoded_operation(code, ip),
        registers: decoded_registers(code, ip),
        kinds: decoded_kinds(code, ip),
        memory: decoded_memory(code, ip),
        accesses: decoded_accesses(code, ip),
    }
}

/// Decodes the first instruction of `code`, taken to stand at address `ip`.
pub fn decode(code: &[u8], ip: u64) -> (r: Instruction)
    ensures
        r@ == decoded(code@, ip),
{
    Instruction {
        operation: decode_operation(code, ip),
        registers: decode_registers(code, ip),
        kinds: decode_kinds(code, ip),
        memory: decode_memory(code, ip),
        accesses: decode_accesses(code, ip),
    }
}

/// Whether an access kind may write.
pub open spec fn writes(access: u32) -> bool {
    access == ACCESS_WRITE || access == ACCESS_COND_WRITE || access == ACCESS_READ_WRITE || access
        == ACCESS_READ_COND_WRITE
}

/// Whether an access kind may write.
pub fn access_writes(access: u32) -> (r: bool)
    ensures
        r == writes(access),
{
    access == ACCESS_WRITE || access == ACCESS_COND_WRITE || access == ACCESS_READ_WRITE || access
        == ACCESS_READ_COND_WRITE
}

/// Whether `full` is one of the sixteen 64-bit general registers.
pub open spec fn is_general(full: u32) -> bool {
    REGISTER_RAX <= full <= REGISTER_R15
}

} // verus!
