//! A verified virtual machine for a 16-bit, register-and-stack
//! architecture: 32768 words of memory, eight 15-bit registers, an
//! unbounded stack, and a closed set of 22 opcodes. The fetch-decode-
//! dispatch engine, operand resolution, wrapping arithmetic, the
//! control-flow discipline for absolute jumps, and the interactive input
//! channel with its administrative command interception all carry proved
//! contracts; the host around it only moves bytes in and out.

pub mod cpu;
pub mod instructions;

use vstd::prelude::*;

use crate::cpu::{
    CPU, Fault, RunOutcome, Snapshot, State, byte_range, copy_words, hack_patch, hack_word,
    run_spec, trim_bytes, trimmed,
};

verus! {

/// Address of the routine that renders a text object, used by the
/// sub-evaluation helper `print`.
pub const TEXT_ENTRY: u16 = 1518;

/// The machine a `print` sub-evaluation starts from: the live machine's
/// memory and registers with register 0 holding `addr`, an empty stack,
/// the program counter at the text routine's entry point, running, and a
/// fresh output channel.
pub open spec fn sub_state(s: State, addr: u16) -> State {
    State {
        registers: s.registers.update(0, addr),
        stack: Seq::empty(),
        pc: TEXT_ENTRY,
        running: true,
        output: Seq::empty(),
        ..s
    }
}

/// Render the text object at `addr` by running a separate, owned copy of
/// the machine (see `sub_state`) for at most `fuel` steps; the live
/// machine is untouched. The copy is returned with its collected output,
/// beside how its run stopped.
pub fn print(cpu: &CPU, addr: u16, fuel: u64) -> (r: (CPU, Result<RunOutcome, Fault>))
    requires
        cpu.wf(),
        addr < 32768,
    ensures
        r.0.wf(),
        (r.0@, r.1) == run_spec(sub_state(cpu@, addr), fuel as nat),
{
    let saved = match &cpu.saved {
        Some(s) => Some(
            Snapshot {
                memory: copy_words(&s.memory),
                registers: copy_words(&s.registers),
                stack: copy_words(&s.stack),
                pc: s.pc,
            },
        ),
        None => None,
    };
    let mut sub = CPU {
        memory: copy_words(&cpu.memory),
        registers: copy_words(&cpu.registers),
        stack: Vec::new(),
        pc: TEXT_ENTRY,
        running: true,
        input_buffer: byte_range(cpu.input_buffer.as_slice(), 0, cpu.input_buffer.len()),
        output: Vec::new(),
        lenient: cpu.lenient,
        saved,
    };
    sub.registers[0] = addr;
    proof {
        assert(sub@.input =~= cpu@.input);
        if cpu@.saved is Some {
            assert(sub@.saved.unwrap() =~= cpu@.saved.unwrap());
        }
        assert(sub@ =~= sub_state(cpu@, addr));
    }
    let res = sub.run(fuel);
    (sub, res)
}

/// Interpret one line as the teleporter patch command — the single
/// command the standalone driver recognizes — and report whether it
/// matched. Any other line leaves the machine untouched.
pub fn command(cpu: &mut CPU, line: &[u8]) -> (r: bool)
    requires
        old(cpu).wf(),
    ensures
        final(cpu).wf(),
        r == (trimmed(line@) == hack_word()),
        final(cpu)@ == (if trimmed(line@) == hack_word() {
            hack_patch(old(cpu)@)
        } else {
            old(cpu)@
        }),
{
    let t = trim_bytes(line);
    if t.len() == 15 && t[0] == 104 && t[1] == 97 && t[2] == 99 && t[3] == 107 && t[4] == 32
        && t[5] == 116 && t[6] == 101 && t[7] == 108 && t[8] == 101 && t[9] == 112 && t[10] == 111
        && t[11] == 114 && t[12] == 116 && t[13] == 101 && t[14] == 114 {
        assert(t@ =~= hack_word());
        cpu.hack();
        true
    } else {
        proof {
            if trimmed(line@) == hack_word() {
                assert(false);
            }
        }
        false
    }
}

} // verus!
