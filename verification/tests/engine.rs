use upside_down::address::calc_rip;
use upside_down::engine::{
    admits, vectored_handler, CpuTrapContext, Disposition, ExecutionMode, Fatal, Trap, TRAP_MASK,
};
use upside_down::gate::{
    classify, decode, encode, leave_directive_line, Gate, Opcode, ENTER_LEN, ENTER_OPCODE,
    LEAVE_LEN, LEAVE_OPCODE,
};

#[test]
fn boundaries_are_fixed_points() {
    for rip in [0u64, 0x10, 0x1000, 0x7ff6_1234_5670, 0xffff_ffff_ffff_fff0] {
        assert_eq!(calc_rip(rip), rip);
    }
}

#[test]
fn other_addresses_move_to_the_slot_before() {
    assert_eq!(calc_rip(0x1001), 0xff0);
    assert_eq!(calc_rip(0x1005), 0xff0);
    assert_eq!(calc_rip(0x100f), 0xff0);
    assert_eq!(calc_rip(0x1f), 0);
    assert_eq!(calc_rip(0x11), 0);
    assert_eq!(calc_rip(0x7ff6_1234_5678), 0x7ff6_1234_5660);
    assert_eq!(calc_rip(u64::MAX), 0xffff_ffff_ffff_ffe0);
}

#[test]
fn the_transform_is_a_function_of_the_address() {
    for rip in 16u64..4096 {
        let once = calc_rip(rip);
        assert_eq!(once, calc_rip(rip));
        assert_eq!(once % 16, 0);
        assert_eq!(calc_rip(once), once);
        let expected = if rip % 16 == 0 { rip } else { rip - rip % 16 - 16 };
        assert_eq!(once, expected);
    }
}

#[test]
fn gate_bytes() {
    assert_eq!(ENTER_OPCODE, 0xB90F);
    assert_eq!(LEAVE_OPCODE, 0x0B0F);
    assert_eq!(ENTER_LEN, 10);
    assert_eq!(LEAVE_LEN, 2);
    assert_eq!(encode(Gate::Leave), vec![0x0F, 0x0B]);
    assert_eq!(
        encode(Gate::Enter { target: 0x0102_0304_0506_0708 }),
        vec![0x0F, 0xB9, 0x08, 0x07, 0x06, 0x05, 0x04, 0x03, 0x02, 0x01]
    );
    assert_eq!(
        encode(Gate::Enter { target: 0x1_4000_1000 }),
        vec![0x0F, 0xB9, 0x00, 0x10, 0x00, 0x40, 0x01, 0x00, 0x00, 0x00]
    );
    assert_eq!(encode(Gate::Enter { target: u64::MAX })[2..], [0xFF; 8]);
}

#[test]
fn decoding_gives_back_what_was_encoded() {
    for target in [0u64, 1, 0xFF, 0x100, 0xDEAD_BEEF, 0x7ff6_1234_5678, u64::MAX] {
        let mut bytes = encode(Gate::Enter { target });
        assert_eq!(decode(&bytes), Some(Gate::Enter { target }));
        bytes.extend_from_slice(&[0x90, 0x90, 0xC3]);
        assert_eq!(decode(&bytes), Some(Gate::Enter { target }));
    }
    assert_eq!(decode(&encode(Gate::Leave)), Some(Gate::Leave));
    assert_eq!(decode(&[0x0F, 0x0B, 0x01, 0x02]), Some(Gate::Leave));
}

#[test]
fn decoding_refuses_what_is_no_gate() {
    assert_eq!(decode(&[]), None);
    assert_eq!(decode(&[0x0F]), None);
    assert_eq!(decode(&[0x0B, 0x0F]), None);
    assert_eq!(decode(&[0x0F, 0xB9]), None);
    assert_eq!(decode(&[0x0F, 0xB9, 1, 2, 3, 4, 5, 6, 7]), None);
    assert_eq!(decode(&[0x0F, 0x05, 1, 2, 3, 4, 5, 6, 7, 8]), None);
    assert_eq!(decode(&[0x90; 16]), None);
}

#[test]
fn opcode_words() {
    assert_eq!(classify(0xB90F), Opcode::Enter);
    assert_eq!(classify(0x0B0F), Opcode::Leave);
    assert_eq!(classify(0x0F0B), Opcode::Other);
    assert_eq!(classify(0), Opcode::Other);
    assert_eq!(classify(u16::from_le_bytes([0x0F, 0xB9])), Opcode::Enter);
    assert_eq!(classify(u16::from_le_bytes([0x0F, 0x0B])), Opcode::Leave);
}

#[test]
fn the_leave_directive_names_the_leave_opcode() {
    assert_eq!(leave_directive_line(), b".word 0x0B0F".to_vec());
    assert_eq!(
        String::from_utf8(leave_directive_line()).unwrap(),
        format!(".word 0x{:04X}", LEAVE_OPCODE)
    );
}

#[test]
fn enter_pushes_jumps_and_starts_stepping() {
    let mut ctx = CpuTrapContext { rip: 0x40_1000, rsp: 0x7000, eflags: 0x246 };
    assert_eq!(ctx.mode(), ExecutionMode::Normal);
    let todo = vectored_handler(&mut ctx, Trap::Enter { target: 0x50_0000 });
    assert_eq!(todo, Disposition::StoreThenContinue { address: 0x6ff8, value: 0x40_100a });
    assert_eq!(ctx, CpuTrapContext { rip: 0x50_0000, rsp: 0x6ff8, eflags: 0x346 });
    assert_eq!(ctx.mode(), ExecutionMode::Stepping);
}

#[test]
fn leave_pops_and_stops_stepping() {
    let mut ctx = CpuTrapContext { rip: 0x50_0040, rsp: 0x6ff8, eflags: 0x346 };
    let todo = vectored_handler(&mut ctx, Trap::Leave { return_address: 0x40_100a });
    assert_eq!(todo, Disposition::Continue);
    assert_eq!(ctx, CpuTrapContext { rip: 0x40_100a, rsp: 0x7000, eflags: 0x246 });
    assert_eq!(ctx.mode(), ExecutionMode::Normal);
}

#[test]
fn single_step_transforms_the_address_and_keeps_stepping() {
    let mut ctx = CpuTrapContext { rip: 0x50_0020, rsp: 0x6ff8, eflags: 0x346 };
    assert_eq!(vectored_handler(&mut ctx, Trap::SingleStep), Disposition::Continue);
    assert_eq!(ctx, CpuTrapContext { rip: 0x50_0020, rsp: 0x6ff8, eflags: 0x346 });
    let mut ctx = CpuTrapContext { rip: 0x50_0023, rsp: 0x6ff8, eflags: 0x246 };
    assert_eq!(vectored_handler(&mut ctx, Trap::SingleStep), Disposition::Continue);
    assert_eq!(ctx, CpuTrapContext { rip: 0x50_0010, rsp: 0x6ff8, eflags: 0x346 });
    assert_eq!(ctx.eflags & TRAP_MASK, TRAP_MASK);
}

#[test]
fn anything_else_is_fatal_and_changes_nothing() {
    let before = CpuTrapContext { rip: 0x1234, rsp: 0x5678, eflags: 0x202 };
    let mut ctx = before;
    assert_eq!(
        vectored_handler(&mut ctx, Trap::IllegalOpcode),
        Disposition::Abort { reason: Fatal::UnexpectedOpcode }
    );
    assert_eq!(ctx, before);
    assert_eq!(
        vectored_handler(&mut ctx, Trap::Other),
        Disposition::Abort { reason: Fatal::UnexpectedException }
    );
    assert_eq!(ctx, before);
}

#[test]
fn gate_round_trip() {
    // A small machine: the caller's code with its ENTER sequence, and a stack.
    let gate_at: u64 = 0x40_1000;
    let target: u64 = 0x50_0000;
    let code = encode(Gate::Enter { target });
    let stack_base: u64 = 0x6f00;
    let mut stack = vec![0u8; 0x100];
    let before = CpuTrapContext { rip: gate_at, rsp: stack_base + 0x100, eflags: 0x246 };
    let mut ctx = before;
    let mut calls = 0;

    // The CPU traps on the opcode; the host decodes it and hands it over.
    let word = u16::from_le_bytes([code[0], code[1]]);
    assert_eq!(classify(word), Opcode::Enter);
    let operand = match decode(&code) {
        Some(Gate::Enter { target }) => target,
        other => panic!("no ENTER gate: {:?}", other),
    };
    match vectored_handler(&mut ctx, Trap::Enter { target: operand }) {
        Disposition::StoreThenContinue { address, value } => {
            let at = (address - stack_base) as usize;
            stack[at..at + 8].copy_from_slice(&value.to_le_bytes());
        }
        other => panic!("unexpected {:?}", other),
    }
    assert_eq!(ctx.rip, target);
    assert_eq!(ctx.mode(), ExecutionMode::Stepping);
    calls += 1;

    // The routine runs under single-stepping, one slot after another.
    for k in 0..12u64 {
        ctx.rip = target + 16 * k;
        assert_eq!(vectored_handler(&mut ctx, Trap::SingleStep), Disposition::Continue);
        assert_eq!(ctx.rip, target + 16 * k);
        assert_eq!(ctx.mode(), ExecutionMode::Stepping);
    }

    // The routine ends in the LEAVE gate.
    let at = (ctx.rsp - stack_base) as usize;
    let mut top = [0u8; 8];
    top.copy_from_slice(&stack[at..at + 8]);
    let todo = vectored_handler(&mut ctx, Trap::Leave { return_address: u64::from_le_bytes(top) });
    assert_eq!(todo, Disposition::Continue);
    assert_eq!(ctx.rsp, before.rsp);
    assert_eq!(ctx.rip, before.rip + ENTER_LEN);
    assert_eq!(ctx.eflags, before.eflags);
    assert_eq!(ctx.mode(), ExecutionMode::Normal);
    assert_eq!(calls, 1);
}

#[test]
fn traps_whose_addresses_leave_64_bits_are_not_admitted() {
    let low = CpuTrapContext { rip: 5, rsp: 7, eflags: 0 };
    let high = CpuTrapContext { rip: u64::MAX - 9, rsp: u64::MAX - 7, eflags: 0 };
    let ok = CpuTrapContext { rip: u64::MAX - 10, rsp: 8, eflags: 0 };
    assert!(!admits(&low, Trap::Enter { target: 0 }));
    assert!(!admits(&high, Trap::Enter { target: 0 }));
    assert!(admits(&ok, Trap::Enter { target: 0 }));
    assert!(admits(&low, Trap::Leave { return_address: 0 }));
    assert!(!admits(&high, Trap::Leave { return_address: 0 }));
    assert!(admits(&CpuTrapContext { rip: 0, rsp: u64::MAX - 8, eflags: 0 }, Trap::Leave {
        return_address: 0
    }));
    assert!(!admits(&low, Trap::SingleStep));
    assert!(admits(&CpuTrapContext { rip: 0, rsp: 0, eflags: 0 }, Trap::SingleStep));
    assert!(admits(&high, Trap::SingleStep));
    assert!(admits(&low, Trap::IllegalOpcode));
    assert!(admits(&low, Trap::Other));
}
