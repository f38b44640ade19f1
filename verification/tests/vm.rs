use synacor_vm::cpu::{CPU, CmdOutcome, Fault, RunOutcome, StepOutcome};
use synacor_vm::{command, print};

fn load_words(cpu: &mut CPU, words: &[u16]) {
    for (i, w) in words.iter().enumerate() {
        cpu.memory[i] = *w;
    }
}

#[test]
fn resolve_literals_identity() {
    let cpu = CPU::new();
    for v in 0u16..=32767 {
        assert_eq!(cpu.get_value(v), Ok(v));
    }
}

#[test]
fn resolve_register_encodings() {
    let mut cpu = CPU::new();
    for i in 0..8 {
        cpu.registers[i] = 100 + i as u16;
    }
    for i in 0u16..8 {
        assert_eq!(cpu.get_value(32768 + i), Ok(100 + i));
    }
}

#[test]
fn resolve_invalid_encodings() {
    let cpu = CPU::new();
    for v in 32776u16..=65535 {
        assert_eq!(cpu.get_value(v), Err(Fault::InvalidOperand(v)));
    }
}

#[test]
fn add_wraps_to_fifteen_bits() {
    let mut cpu = CPU::new();
    load_words(&mut cpu, &[9, 32768, 32767, 32767, 0]);
    assert_eq!(cpu.execute_next(), Ok(StepOutcome::Ran));
    assert_eq!(cpu.registers[0], 32766);
    assert!(cpu.registers[0] < 32768);
}

#[test]
fn mult_wraps_to_fifteen_bits() {
    let mut cpu = CPU::new();
    load_words(&mut cpu, &[10, 32768, 32767, 32767, 0]);
    assert_eq!(cpu.execute_next(), Ok(StepOutcome::Ran));
    assert_eq!(cpu.registers[0], 1);
    assert!(cpu.registers[0] < 32768);
}

#[test]
fn and_or_not_stay_in_range() {
    let mut cpu = CPU::new();
    load_words(&mut cpu, &[12, 32768, 32767, 21845, 13, 32769, 21845, 10922, 14, 32770, 0]);
    assert_eq!(cpu.execute_next(), Ok(StepOutcome::Ran));
    assert_eq!(cpu.registers[0], 21845);
    assert_eq!(cpu.execute_next(), Ok(StepOutcome::Ran));
    assert_eq!(cpu.registers[1], 32767);
    assert_eq!(cpu.execute_next(), Ok(StepOutcome::Ran));
    assert_eq!(cpu.registers[2], 32767);
    for i in 0..3 {
        assert!(cpu.registers[i] < 32768);
    }
}

#[test]
fn mod_is_remainder() {
    let mut cpu = CPU::new();
    load_words(&mut cpu, &[11, 32768, 17, 5, 0]);
    assert_eq!(cpu.execute_next(), Ok(StepOutcome::Ran));
    assert_eq!(cpu.registers[0], 2);
}

#[test]
fn mod_by_zero_is_fatal() {
    let mut cpu = CPU::new();
    load_words(&mut cpu, &[11, 32768, 17, 0, 0]);
    assert_eq!(cpu.execute_next(), Err(Fault::DivideByZero));
}

#[test]
fn jmp_lands_exactly_on_target() {
    let mut cpu = CPU::new();
    load_words(&mut cpu, &[6, 100]);
    assert_eq!(cpu.execute_next(), Ok(StepOutcome::Ran));
    assert_eq!(cpu.pc, 100);
}

#[test]
fn jt_and_jf_follow_their_tests() {
    let mut cpu = CPU::new();
    load_words(&mut cpu, &[7, 1, 50]);
    cpu.memory[50] = 8;
    cpu.memory[51] = 0;
    cpu.memory[52] = 200;
    assert_eq!(cpu.execute_next(), Ok(StepOutcome::Ran));
    assert_eq!(cpu.pc, 50);
    assert_eq!(cpu.execute_next(), Ok(StepOutcome::Ran));
    assert_eq!(cpu.pc, 200);

    let mut cpu2 = CPU::new();
    load_words(&mut cpu2, &[7, 0, 50]);
    assert_eq!(cpu2.execute_next(), Ok(StepOutcome::Ran));
    assert_eq!(cpu2.pc, 3);
}

#[test]
fn call_then_ret_returns_after_the_call() {
    let mut cpu = CPU::new();
    load_words(&mut cpu, &[17, 5, 0, 0, 0, 18]);
    assert_eq!(cpu.execute_next(), Ok(StepOutcome::Ran));
    assert_eq!(cpu.pc, 5);
    assert_eq!(cpu.stack, vec![2]);
    assert_eq!(cpu.execute_next(), Ok(StepOutcome::Ran));
    assert_eq!(cpu.pc, 2);
    assert!(cpu.stack.is_empty());
}

#[test]
fn push_then_pop_round_trips() {
    let mut cpu = CPU::new();
    load_words(&mut cpu, &[2, 123, 3, 32770]);
    let depth = cpu.stack.len();
    assert_eq!(cpu.execute_next(), Ok(StepOutcome::Ran));
    assert_eq!(cpu.execute_next(), Ok(StepOutcome::Ran));
    assert_eq!(cpu.registers[2], 123);
    assert_eq!(cpu.stack.len(), depth);
}

#[test]
fn pop_on_empty_stack_is_fatal() {
    let mut cpu = CPU::new();
    load_words(&mut cpu, &[3, 32768]);
    assert_eq!(cpu.execute_next(), Err(Fault::StackUnderflow));
    assert!(cpu.running);
    assert_eq!(cpu.pc, 0);
}

#[test]
fn ret_on_empty_stack_halts_without_error() {
    let mut cpu = CPU::new();
    load_words(&mut cpu, &[18]);
    assert_eq!(cpu.execute_next(), Ok(StepOutcome::Ran));
    assert!(!cpu.running);
}

#[test]
fn scenario_add_register_operand_then_out() {
    let mut cpu = CPU::new();
    load_words(&mut cpu, &[9, 32768, 32769, 4, 19, 32768, 0]);
    cpu.registers[1] = 4;
    assert_eq!(cpu.execute_next(), Ok(StepOutcome::Ran));
    assert_eq!(cpu.registers[0], 8);
    assert_eq!(cpu.execute_next(), Ok(StepOutcome::Ran));
    assert_eq!(cpu.output, vec![8]);
    assert_eq!(cpu.execute_next(), Ok(StepOutcome::Ran));
    assert!(!cpu.running);
}

#[test]
fn scenario_add_literals_then_out() {
    let mut cpu = CPU::new();
    load_words(&mut cpu, &[9, 32768, 4, 4, 19, 32768, 0]);
    assert_eq!(cpu.run(10), Ok(RunOutcome::Halted));
    assert_eq!(cpu.registers[0], 8);
    assert_eq!(cpu.output, vec![8]);
}

#[test]
fn set_eq_gt_write_registers() {
    let mut cpu = CPU::new();
    load_words(&mut cpu, &[1, 32770, 77, 4, 32768, 77, 77, 5, 32769, 3, 9, 0]);
    assert_eq!(cpu.run(10), Ok(RunOutcome::Halted));
    assert_eq!(cpu.registers[2], 77);
    assert_eq!(cpu.registers[0], 1);
    assert_eq!(cpu.registers[1], 0);
}

#[test]
fn rmem_and_wmem_move_words() {
    let mut cpu = CPU::new();
    load_words(&mut cpu, &[16, 500, 42, 15, 32768, 500, 0]);
    assert_eq!(cpu.run(10), Ok(RunOutcome::Halted));
    assert_eq!(cpu.memory[500], 42);
    assert_eq!(cpu.registers[0], 42);
}

#[test]
fn rmem_of_wide_word_is_fatal() {
    let mut cpu = CPU::new();
    load_words(&mut cpu, &[15, 32768, 10]);
    cpu.memory[10] = 40000;
    assert_eq!(cpu.execute_next(), Err(Fault::NonLiteralWord(40000)));
}

#[test]
fn unknown_opcode_is_fatal_by_default() {
    let mut cpu = CPU::new();
    cpu.memory[0] = 999;
    assert_eq!(cpu.execute_next(), Err(Fault::UnknownOpcode(999, 0)));
    assert_eq!(cpu.pc, 0);
}

#[test]
fn unknown_opcode_is_skipped_when_lenient() {
    let mut cpu = CPU::new();
    cpu.memory[0] = 999;
    cpu.lenient = true;
    assert_eq!(cpu.execute_next(), Ok(StepOutcome::Ran));
    assert_eq!(cpu.pc, 1);
}

#[test]
fn save_then_load_restores_registers() {
    let mut cpu = CPU::new();
    cpu.registers[3] = 7;
    assert_eq!(cpu.command(b"save"), CmdOutcome::Applied);
    cpu.registers[3] = 9;
    assert_eq!(cpu.command(b"load"), CmdOutcome::Applied);
    assert_eq!(cpu.registers[3], 7);
}

#[test]
fn second_load_without_save_is_operator_error() {
    let mut cpu = CPU::new();
    assert_eq!(cpu.command(b"save"), CmdOutcome::Applied);
    cpu.registers[0] = 1;
    assert_eq!(cpu.command(b"load"), CmdOutcome::Applied);
    assert_eq!(cpu.registers[0], 0);
    cpu.registers[0] = 2;
    assert_eq!(cpu.command(b"load"), CmdOutcome::NoSnapshot);
    assert_eq!(cpu.registers[0], 2);
}

#[test]
fn save_restores_pc_memory_and_stack() {
    let mut cpu = CPU::new();
    cpu.pc = 123;
    cpu.memory[6000] = 11;
    cpu.stack.push(5);
    assert_eq!(cpu.command(b"save"), CmdOutcome::Applied);
    cpu.pc = 999;
    cpu.memory[6000] = 22;
    cpu.stack.push(6);
    assert_eq!(cpu.command(b"load"), CmdOutcome::Applied);
    assert_eq!(cpu.pc, 123);
    assert_eq!(cpu.memory[6000], 11);
    assert_eq!(cpu.stack, vec![5]);
}

#[test]
fn command_lines_are_trimmed() {
    let mut cpu = CPU::new();
    assert_eq!(cpu.command(b"  save  "), CmdOutcome::Applied);
    assert_eq!(cpu.command(b"look around"), CmdOutcome::NotRecognized);
}

#[test]
fn hack_teleporter_patches_machine() {
    let mut cpu = CPU::new();
    assert!(command(&mut cpu, b"hack teleporter"));
    assert_eq!(cpu.registers[7], 25734);
    assert_eq!(
        &cpu.memory[6027..6034],
        &[1, 32769, 32775, 1, 32768, 6, 21]
    );
    let mut other = CPU::new();
    assert!(!command(&mut other, b"go north"));
    assert_eq!(other.registers[7], 0);
}

#[test]
fn in_reads_one_character_per_step() {
    let mut cpu = CPU::new();
    load_words(&mut cpu, &[20, 32768, 20, 32769, 0]);
    cpu.set_input(b"hi");
    assert_eq!(cpu.execute_next(), Ok(StepOutcome::Ran));
    assert_eq!(cpu.registers[0], 'h' as u16);
    assert_eq!(cpu.execute_next(), Ok(StepOutcome::Ran));
    assert_eq!(cpu.registers[1], 'i' as u16);
}

#[test]
fn in_blocks_on_empty_buffer_then_accepts_a_line() {
    let mut cpu = CPU::new();
    load_words(&mut cpu, &[20, 32768, 0]);
    assert_eq!(cpu.execute_next(), Ok(StepOutcome::NeedInput));
    assert_eq!(cpu.pc, 0);
    cpu.feed_line(b"a");
    assert_eq!(cpu.execute_next(), Ok(StepOutcome::Ran));
    assert_eq!(cpu.registers[0], 'a' as u16);
    assert_eq!(cpu.input_buffer, vec![10]);
}

#[test]
fn in_intercepts_administrative_lines() {
    let mut cpu = CPU::new();
    load_words(&mut cpu, &[20, 32768, 0]);
    cpu.registers[5] = 77;
    cpu.set_input(b"save\nx");
    assert_eq!(cpu.execute_next(), Ok(StepOutcome::Ran));
    assert_eq!(cpu.registers[0], 'x' as u16);
    assert!(cpu.saved.is_some());
    let snap = cpu.saved.as_ref().unwrap();
    assert_eq!(snap.registers[5], 77);
}

#[test]
fn in_applies_load_before_handing_out_characters() {
    let mut cpu = CPU::new();
    load_words(&mut cpu, &[20, 32768, 0]);
    assert_eq!(cpu.command(b"save"), CmdOutcome::Applied);
    cpu.registers[4] = 1234;
    cpu.set_input(b"load\nz");
    assert_eq!(cpu.execute_next(), Ok(StepOutcome::Ran));
    assert_eq!(cpu.registers[0], 'z' as u16);
    assert_eq!(cpu.registers[4], 0);
    assert!(cpu.saved.is_none());
}

#[test]
fn in_skips_carriage_returns() {
    let mut cpu = CPU::new();
    load_words(&mut cpu, &[20, 32768, 0]);
    cpu.input_buffer = vec![13, 13, 'q' as u8];
    assert_eq!(cpu.execute_next(), Ok(StepOutcome::Ran));
    assert_eq!(cpu.registers[0], 'q' as u16);
}

#[test]
fn feed_line_strips_carriage_returns_and_adds_boundary() {
    let mut cpu = CPU::new();
    cpu.feed_line(b"ab\r");
    assert_eq!(cpu.input_buffer, vec![b'a', b'b', 10]);
}

#[test]
fn run_reports_need_input_and_out_of_fuel() {
    let mut cpu = CPU::new();
    load_words(&mut cpu, &[20, 32768, 0]);
    assert_eq!(cpu.run(10), Ok(RunOutcome::NeedInput));
    assert!(cpu.running);

    let mut looping = CPU::new();
    load_words(&mut looping, &[6, 0]);
    assert_eq!(looping.run(100), Ok(RunOutcome::OutOfFuel));
    assert!(looping.running);
}

#[test]
fn run_stops_on_fault() {
    let mut cpu = CPU::new();
    load_words(&mut cpu, &[21, 3, 32768]);
    assert_eq!(cpu.run(10), Err(Fault::StackUnderflow));
}

#[test]
fn load_image_decodes_little_endian_words() {
    let mut cpu = CPU::new();
    cpu.memory[2] = 7777;
    cpu.load_image(&[0x09, 0x00, 0x01, 0x80, 0x55]);
    assert_eq!(cpu.memory[0], 9);
    assert_eq!(cpu.memory[1], 0x8001);
    assert_eq!(cpu.memory[2], 7777);
}

#[test]
fn dis_round_trips_decoded_addresses() {
    let mut cpu = CPU::new();
    load_words(&mut cpu, &[9, 32768, 4, 4, 19, 32768, 0, 999, 6, 100]);
    cpu.memory[32767] = 9;
    let listing = cpu.dis();
    assert!(!listing.is_empty());
    for e in &listing {
        let mut words = vec![e.opcode as u16];
        words.extend_from_slice(&e.args);
        let addr = e.addr as usize;
        assert_eq!(&cpu.memory[addr..addr + words.len()], &words[..]);
    }
    let first: Vec<u16> = listing
        .iter()
        .take(3)
        .flat_map(|e| {
            let mut w = vec![e.opcode as u16];
            w.extend_from_slice(&e.args);
            w
        })
        .collect();
    assert_eq!(&first, &[9, 32768, 4, 4, 19, 32768, 0]);
}

#[test]
fn dis_lists_every_decodable_address() {
    let mut cpu = CPU::new();
    load_words(&mut cpu, &[9, 32768, 4, 4, 19, 32768, 0, 999, 6, 100]);
    cpu.memory[32767] = 9;
    let addrs: Vec<u16> = cpu.dis().iter().map(|e| e.addr).collect();
    assert_eq!(&addrs[..4], &[0, 4, 6, 8]);
    assert!(!addrs.contains(&7));
    assert!(!addrs.contains(&32767));
    for (i, a) in (10u16..=32766).enumerate() {
        assert_eq!(addrs[4 + i], a);
    }
    assert_eq!(addrs.len(), 4 + 32757);
}

#[test]
fn print_runs_a_sub_evaluation() {
    let mut cpu = CPU::new();
    cpu.memory[1518] = 19;
    cpu.memory[1519] = 32768;
    cpu.memory[1520] = 0;
    cpu.registers[0] = 5;
    cpu.pc = 40;
    let (sub, res) = print(&cpu, 72, 100);
    assert_eq!(res, Ok(RunOutcome::Halted));
    assert_eq!(sub.output, vec![72]);
    assert_eq!(cpu.registers[0], 5);
    assert_eq!(cpu.pc, 40);
}
