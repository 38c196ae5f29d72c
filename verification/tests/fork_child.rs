use iced_x86::{Mnemonic, OpAccess, OpKind, Register};
use litebox_windows_userland::fork_verify::{
    access_violation_record, codewatch_ranges, constant_offset_delta, crash_window_start,
    entry_eflags_tf, explicit_memory_operand_address, memory_write_address, on_code, on_load,
    on_return_slot, on_single_step, on_target, readable_code_len, register_value,
    stack_word_readable, write_plan, write_register_value, CodeWatch, ExceptionRecord, Heal,
    LastLoad, StepAction, StepOutcome, ThreadRegisters, WritePlan,
};
use litebox_windows_userland::instruction;
use litebox_windows_userland::instruction::{decode, RegisterUse};
use litebox_windows_userland::memory::MemoryRegion;
use litebox_windows_userland::relocations::{AddressRelocations, RelocatedRange};

const RBX: usize = 3;
const RSP: usize = 4;
const RBP: usize = 5;

fn range(start: u64, end: u64, dest: Option<u64>, executable: bool, heap: bool) -> RelocatedRange {
    RelocatedRange {
        source_start: start,
        source_end: end,
        dest_base: dest,
        executable,
        heap,
    }
}

fn map() -> AddressRelocations {
    AddressRelocations::new(vec![
        range(0x1000, 0x2000, Some(0x101000), true, false),
        range(0x3000, 0x4000, Some(0x103000), false, true),
        range(0x5000, 0x6000, Some(0x105000), false, false),
        range(0x7000, 0x8000, None, true, false),
    ])
    .unwrap()
}

fn registers(rip: u64) -> ThreadRegisters {
    let mut gpr = [0u64; 16];
    gpr[RSP] = 0x105100;
    ThreadRegisters { gpr, rip, eflags: 0x202 }
}

fn finish(heal: Option<Heal>) -> StepAction {
    StepAction::Finish { outcome: StepOutcome::Continue, heal }
}

#[test]
fn enumerations_have_the_decoder_numbers() {
    assert_eq!(instruction::REGISTER_NONE, Register::None as u32);
    assert_eq!(instruction::REGISTER_RAX, Register::RAX as u32);
    assert_eq!(instruction::REGISTER_RSP, Register::RSP as u32);
    assert_eq!(instruction::REGISTER_RBP, Register::RBP as u32);
    assert_eq!(instruction::REGISTER_R15, Register::R15 as u32);
    assert_eq!(instruction::REGISTER_EIP, Register::EIP as u32);
    assert_eq!(instruction::REGISTER_RIP, Register::RIP as u32);
    assert_eq!(instruction::KIND_REGISTER, OpKind::Register as u32);
    assert_eq!(instruction::KIND_IMMEDIATE8, OpKind::Immediate8 as u32);
    assert_eq!(instruction::KIND_IMMEDIATE32, OpKind::Immediate32 as u32);
    assert_eq!(instruction::KIND_IMMEDIATE64, OpKind::Immediate64 as u32);
    assert_eq!(instruction::KIND_IMMEDIATE8TO64, OpKind::Immediate8to64 as u32);
    assert_eq!(instruction::KIND_IMMEDIATE32TO64, OpKind::Immediate32to64 as u32);
    assert_eq!(instruction::KIND_MEMORY, OpKind::Memory as u32);
    assert_eq!(instruction::MNEMONIC_ADD, Mnemonic::Add as u32);
    assert_eq!(instruction::MNEMONIC_LEA, Mnemonic::Lea as u32);
    assert_eq!(instruction::MNEMONIC_SUB, Mnemonic::Sub as u32);
    assert_eq!(instruction::ACCESS_WRITE, OpAccess::Write as u32);
    assert_eq!(instruction::ACCESS_COND_WRITE, OpAccess::CondWrite as u32);
    assert_eq!(instruction::ACCESS_READ_WRITE, OpAccess::ReadWrite as u32);
    assert_eq!(instruction::ACCESS_READ_COND_WRITE, OpAccess::ReadCondWrite as u32);
    let order = [
        Register::RAX,
        Register::RCX,
        Register::RDX,
        Register::RBX,
        Register::RSP,
        Register::RBP,
        Register::RSI,
        Register::RDI,
        Register::R8,
    ];
    for (i, r) in order.iter().enumerate() {
        assert_eq!(*r as u32, instruction::REGISTER_RAX + i as u32);
    }
}

#[test]
fn instructions_are_decoded() {
    // mov eax, [rbx+rcx*4-8]
    let i = decode(&[0x8B, 0x44, 0x8B, 0xF8], 0x101000);
    assert!(!i.operation.invalid);
    assert_eq!(i.kinds, vec![instruction::KIND_REGISTER, instruction::KIND_MEMORY]);
    assert_eq!(i.registers.op0.register, Register::EAX as u32);
    assert_eq!(i.registers.op0.full, Register::RAX as u32);
    assert_eq!(i.registers.op0.size, 4);
    assert_eq!(i.registers.base.full, Register::RBX as u32);
    assert_eq!(i.registers.index.full, Register::RCX as u32);
    assert_eq!(i.operation.scale, 4);
    assert_eq!(i.operation.displacement, (-8i64) as u64);
    assert_eq!(i.memory.len(), 1);
    assert!(!instruction::access_writes(i.memory[0].access));
    assert!(i.accesses.iter().any(|a| a.full == Register::RAX as u32
        && instruction::access_writes(a.access)));
    assert!(decode(&[], 0).operation.invalid);
    assert!(decode(&[0x06], 0).operation.invalid);
}

#[test]
fn operand_addresses_are_computed() {
    let mut regs = registers(0x101000);
    regs.gpr[RBX] = 0x1000;
    regs.gpr[1] = 0x10;
    let i = decode(&[0x8B, 0x44, 0x8B, 0xF8], 0x101000);
    assert_eq!(explicit_memory_operand_address(&i, &regs), Some(0x1000 + 0x40 - 8));
    assert_eq!(memory_write_address(&i, &regs), None);
    // mov [rip+0x10], eax
    let i = decode(&[0x89, 0x05, 0x10, 0, 0, 0], 0x101000);
    assert_eq!(explicit_memory_operand_address(&i, &regs), Some(0x101016));
    assert_eq!(memory_write_address(&i, &regs), Some(0x101016));
    // push rax
    let i = decode(&[0x50], 0x101000);
    assert_eq!(explicit_memory_operand_address(&i, &regs), None);
    assert_eq!(memory_write_address(&i, &regs), Some(0x1050F8));
}

#[test]
fn registers_are_read_and_written() {
    let mut regs = registers(0);
    regs.gpr[RBX] = 0x1_2345_6789;
    let rbx = Register::RBX as u32;
    let whole = RegisterUse { register: rbx, full: rbx, size: 8 };
    let half = RegisterUse { register: Register::EBX as u32, full: rbx, size: 4 };
    let none = RegisterUse { register: 0, full: 0, size: 0 };
    assert_eq!(register_value(whole, &regs), Some(0x1_2345_6789));
    assert_eq!(register_value(half, &regs), Some(0x2345_6789));
    assert_eq!(register_value(none, &regs), None);
    write_register_value(rbx, 7, &mut regs);
    assert_eq!(regs.gpr[RBX], 7);
    write_register_value(0, 9, &mut regs);
    assert!(!regs.gpr.contains(&9));
}

#[test]
fn relocations_translate() {
    let m = map();
    assert_eq!(m.translate(0x1000), Some(0x101000));
    assert_eq!(m.translate(0x1FFF), Some(0x101FFF));
    assert_eq!(m.translate(0x2000), None);
    assert_eq!(m.translate(0x7000), None);
    assert!(m.is_in_source(0x7000));
    assert!(!m.is_in_source(0x2000));
    assert!(m.is_in_destination(0x103000));
    assert!(!m.is_in_destination(0x104000));
    assert!(m.is_in_destination_heap_range(0x103FFF));
    assert!(!m.is_in_destination_heap_range(0x101000));
    assert!(m.is_in_destination_executable_range(0x101000));
    assert!(!m.is_in_destination_executable_range(0x105000));
    assert_eq!(m.ranges().len(), 4);
    assert_eq!(codewatch_ranges(&m), vec![(0x101000, 0x102000)]);
    let backwards = vec![range(2, 1, None, false, false)];
    assert!(AddressRelocations::new(backwards).is_none());
    let wrapping = vec![range(0, 16, Some(u64::MAX - 8), false, false)];
    assert!(AddressRelocations::new(wrapping).is_none());
}

#[test]
fn an_unverified_thread_is_left_alone() {
    let mut regs = registers(0x1000);
    regs.eflags = 0x302;
    assert_eq!(on_single_step(&mut regs, None, false), finish(None));
    assert_eq!((regs.rip, regs.eflags), (0x1000, 0x202));
    let m = map();
    let mut outside = registers(0x9000);
    outside.eflags = 0x302;
    assert_eq!(on_single_step(&mut outside, Some(&m), false), finish(None));
    assert_eq!(outside.eflags, 0x202);
    let mut rearmed = registers(0x1000);
    assert_eq!(on_single_step(&mut rearmed, Some(&m), true), finish(None));
    assert_eq!(rearmed, registers(0x1000));
}

#[test]
fn a_stale_return_is_healed() {
    let m = map();
    let mut regs = registers(0x1100);
    regs.gpr[RBP] = 0x5080;
    assert_eq!(
        on_single_step(&mut regs, Some(&m), false),
        StepAction::ReadReturnSlot { slot: 0x1050F8, stale: 0x1100, translated: 0x101100 }
    );
    assert_eq!((regs.rip, regs.gpr[RBP], regs.eflags), (0x101100, 0x105080, 0x302));
    let heal = Heal { address: 0x1050F8, value: 0x101100 };
    assert_eq!(on_return_slot(0x1050F8, 0x1100, 0x101100, Some(0x1100)), finish(Some(heal)));
    assert_eq!(on_return_slot(0x1050F8, 0x1100, 0x101100, Some(0x1101)), finish(None));
    assert_eq!(on_return_slot(0x1050F8, 0x1100, 0x101100, None), finish(None));
}

#[test]
fn executing_what_was_not_copied_kills() {
    let m = map();
    let mut regs = registers(0x7010);
    assert_eq!(
        on_single_step(&mut regs, Some(&m), false),
        StepAction::Finish {
            outcome: StepOutcome::StalePointer { address: 0x7010, is_write: false },
            heal: None
        }
    );
}

#[test]
fn the_child_is_decoded_step_by_step() {
    let m = map();
    let mut regs = registers(0x101000);
    assert_eq!(
        on_single_step(&mut regs, Some(&m), false),
        StepAction::ReadCode { address: 0x101000 }
    );
    assert_eq!(regs.eflags, 0x302);
    let mut chain = None;
    let (action, _) = on_code(&[], &mut regs, &mut chain, &m);
    assert_eq!(action, finish(None));
}

#[test]
fn a_stale_read_is_repaired() {
    let m = map();
    let mut regs = registers(0x101000);
    regs.gpr[RBX] = 0x5010;
    let mut chain = Some(LastLoad {
        load_address: 0x105040,
        loaded_value: 0x5010,
        register: Register::RBX as u32,
        offset: 0,
    });
    // mov rax, [rbx]
    let (action, _) = on_code(&[0x48, 0x8B, 0x03], &mut regs, &mut chain, &m);
    assert_eq!(action, finish(Some(Heal { address: 0x105040, value: 0x105010 })));
    assert_eq!(regs.gpr[RBX], 0x105010);
    let (action, i) = on_code(&[0x48, 0x8B, 0x03], &mut regs, &mut chain, &m);
    assert_eq!(action, StepAction::ReadLoad { heal: None, address: 0x105010 });
    assert_eq!(on_load(&i, &mut chain, 0x105010, Some(0x1200)), finish(None));
    assert_eq!(
        chain,
        Some(LastLoad {
            load_address: 0x105010,
            loaded_value: 0x1200,
            register: Register::RAX as u32,
            offset: 0
        })
    );
}

#[test]
fn a_stale_write_is_repaired_or_kills() {
    let m = map();
    let mut regs = registers(0x101000);
    regs.gpr[RBX] = 0x5010;
    let mut chain = None;
    // mov [rbx], rax
    let (action, _) = on_code(&[0x48, 0x89, 0x03], &mut regs, &mut chain, &m);
    assert_eq!(action, finish(None));
    assert_eq!(regs.gpr[RBX], 0x105010);
    // mov [0x5010], eax
    let code = [0x89, 0x04, 0x25, 0x10, 0x50, 0, 0];
    let (action, _) = on_code(&code, &mut regs, &mut chain, &m);
    assert_eq!(
        action,
        StepAction::Finish {
            outcome: StepOutcome::StalePointer { address: 0x5010, is_write: true },
            heal: None
        }
    );
}

#[test]
fn branches_through_stale_slots_are_healed() {
    let m = map();
    let mut regs = registers(0x101000);
    regs.gpr[RBX] = 0x105020;
    let mut chain = None;
    // call [rbx], jmp [rbx]
    for code in [[0xFF, 0x13], [0xFF, 0x23]] {
        let (action, i) = on_code(&code, &mut regs, &mut chain, &m);
        assert_eq!(action, StepAction::ReadTarget { address: 0x105020 });
        let heal = Heal { address: 0x105020, value: 0x101300 };
        let done = on_target(&i, &regs, &mut chain, &m, 0x105020, Some(0x1300));
        assert_eq!(done, finish(Some(heal)));
        let done = on_target(&i, &regs, &mut chain, &m, 0x105020, Some(0x9999));
        assert_eq!(done, finish(None));
    }
}

#[test]
fn branches_through_stale_registers_are_healed() {
    let m = map();
    // call rax, jmp rax
    for code in [[0xFF, 0xD0], [0xFF, 0xE0]] {
        let mut regs = registers(0x101000);
        regs.gpr[0] = 0x1208;
        let mut chain = Some(LastLoad {
            load_address: 0x105010,
            loaded_value: 0x1200,
            register: Register::RAX as u32,
            offset: 8,
        });
        let (action, _) = on_code(&code, &mut regs, &mut chain, &m);
        assert_eq!(action, finish(Some(Heal { address: 0x105010, value: 0x101200 })));
    }
}

#[test]
fn constants_are_followed() {
    let rax = Register::RAX as u32;
    // add rax, 8; sub rax, 8; lea rax, [rax-4]; add rax, 0x1000; xor eax, eax
    assert_eq!(constant_offset_delta(&decode(&[0x48, 0x83, 0xC0, 0x08], 0), rax), Some(8));
    assert_eq!(constant_offset_delta(&decode(&[0x48, 0x83, 0xE8, 0x08], 0), rax), Some(-8));
    assert_eq!(constant_offset_delta(&decode(&[0x48, 0x8D, 0x40, 0xFC], 0), rax), Some(-4));
    let add = decode(&[0x48, 0x05, 0x00, 0x10, 0, 0], 0);
    assert_eq!(constant_offset_delta(&add, rax), Some(0x1000));
    assert_eq!(constant_offset_delta(&decode(&[0x31, 0xC0], 0), rax), None);
    let m = map();
    let mut regs = registers(0x101000);
    let mut chain = Some(LastLoad {
        load_address: 0x105010,
        loaded_value: 0x1200,
        register: rax,
        offset: 0,
    });
    let (_, _) = on_code(&[0x48, 0x83, 0xC0, 0x08], &mut regs, &mut chain, &m);
    assert_eq!(chain.unwrap().offset, 8);
    assert_eq!(chain.unwrap().current_value(), 0x1208);
    regs.gpr[0] = 0x105020;
    let (action, _) = on_code(&[0x48, 0x8D, 0x40, 0xFC], &mut regs, &mut chain, &m);
    assert_eq!(action, finish(None));
    assert_eq!(chain.unwrap().offset, 4);
    let (_, _) = on_code(&[0x90], &mut regs, &mut chain, &m);
    assert!(chain.is_some());
    let (_, _) = on_code(&[0x31, 0xC0], &mut regs, &mut chain, &m);
    assert!(chain.is_none());
}

fn region(state: u32, protect: u32) -> Option<MemoryRegion> {
    Some(MemoryRegion { base: 0, size: 0x1000, state, protect })
}

#[test]
fn memory_is_touched_with_care() {
    assert_eq!(entry_eflags_tf(true), 0x100);
    assert_eq!(entry_eflags_tf(false), 0);
    assert_eq!(readable_code_len(0x1FFA, 15, false), 6);
    assert_eq!(readable_code_len(0x1FFA, 15, true), 15);
    assert_eq!(readable_code_len(0x1000, 15, false), 15);
    assert!(stack_word_readable(0x1008, region(0x1000, 4)));
    assert!(!stack_word_readable(0x1001, region(0x1000, 4)));
    assert!(!stack_word_readable(0, region(0x1000, 4)));
    assert!(!stack_word_readable(0x1008, region(0x2000, 4)));
    assert_eq!(write_plan(region(0x1000, 4)), WritePlan::Direct);
    assert_eq!(write_plan(region(0x1000, 2)), WritePlan::Widen);
    assert_eq!(write_plan(region(0x1000, 1)), WritePlan::Skip);
    assert_eq!(write_plan(None), WritePlan::Skip);
    let template = ExceptionRecord {
        code: 0x8000_0004,
        flags: 1,
        address: 2,
        number_parameters: 0,
        information: [9; 15],
    };
    let record = access_violation_record(&template, 0x5010, true);
    assert_eq!((record.code, record.flags, record.address), (0xC000_0005, 1, 2));
    assert_eq!(record.number_parameters, 2);
    assert_eq!(&record.information[..3], &[1, 0x5010, 9]);
    assert!(crash_window_start(0x1000) <= 0x1000);
}

#[test]
fn code_writes_are_stepped_over() {
    let mut watch = CodeWatch::new();
    assert!(watch.arm(0x1000, 0x3000, true));
    assert!(!watch.arm(0x5000, 0x6000, false));
    assert!(watch.contains(0x2FFF));
    assert!(!watch.contains(0x3000));
    let mut regs = registers(0);
    assert_eq!(watch.on_codewatch_write(true, 0, 0x2010, &mut regs), None);
    assert_eq!(watch.on_codewatch_write(true, 1, 0x2010, &mut regs), Some(0x2000));
    assert_eq!(regs.eflags, 0x302);
    assert_eq!(watch.on_codewatch_step(true, &mut regs), Some(0x2000));
    assert_eq!(regs.eflags, 0x202);
    assert_eq!(watch.on_single_step_rearm(), None);
    for _ in 0..7 {
        assert!(watch.has_room());
        assert!(watch.arm(0, 1, true));
    }
    assert!(!watch.has_room());
    assert!(!watch.arm(0, 1, true));
    watch.reset();
    assert!(!watch.contains(0x2FFF));
}
