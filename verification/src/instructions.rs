use vstd::prelude::*;

use crate::cpu::{
    CPU, Action, Fault, State, exec_step, reg_write, add_val, mult_val, mod_val, not_val,
    lemma_in_spec_props,
};

verus! {

/// The closed set of opcodes the machine understands. Each opcode has a
/// fixed operand count (`arity`) and is identified by a numeric code in
/// [0, 21] (`from_opcode` / `opcode_of`).
#[derive(Clone, Copy, Debug, PartialEq, Eq, Structural)]
pub enum Instruction {
    Halt,
    SetReg,
    Push,
    Pop,
    Eq,
    Gt,
    Jmp,
    Jt,
    Jf,
    Add,
    Mult,
    Mod,
    And,
    Or,
    Not,
    Rmem,
    Wmem,
    Call,
    Ret,
    Out,
    In,
    Nop,
}

/// The numeric code that identifies `i` in a program image.
pub open spec fn opcode_of(i: Instruction) -> u16 {
    match i {
        Instruction::Halt => 0,
        Instruction::SetReg => 1,
        Instruction::Push => 2,
        Instruction::Pop => 3,
        Instruction::Eq => 4,
        Instruction::Gt => 5,
        Instruction::Jmp => 6,
        Instruction::Jt => 7,
        Instruction::Jf => 8,
        Instruction::Add => 9,
        Instruction::Mult => 10,
        Instruction::Mod => 11,
        Instruction::And => 12,
        Instruction::Or => 13,
        Instruction::Not => 14,
        Instruction::Rmem => 15,
        Instruction::Wmem => 16,
        Instruction::Call => 17,
        Instruction::Ret => 18,
        Instruction::Out => 19,
        Instruction::In => 20,
        Instruction::Nop => 21,
    }
}

/// How many operand words follow the opcode word.
pub open spec fn spec_arity(i: Instruction) -> u16 {
    match i {
        Instruction::Halt => 0,
        Instruction::SetReg => 2,
        Instruction::Push => 1,
        Instruction::Pop => 1,
        Instruction::Eq => 3,
        Instruction::Gt => 3,
        Instruction::Jmp => 1,
        Instruction::Jt => 2,
        Instruction::Jf => 2,
        Instruction::Add => 3,
        Instruction::Mult => 3,
        Instruction::Mod => 3,
        Instruction::And => 3,
        Instruction::Or => 3,
        Instruction::Not => 2,
        Instruction::Rmem => 2,
        Instruction::Wmem => 2,
        Instruction::Call => 1,
        Instruction::Ret => 0,
        Instruction::Out => 1,
        Instruction::In => 1,
        Instruction::Nop => 0,
    }
}

/// Decoding: the instruction whose code is `opcode`, if there is one.
pub open spec fn spec_from_opcode(opcode: u16) -> Option<Instruction> {
    if opcode == 0 {
        Some(Instruction::Halt)
    } else if opcode == 1 {
        Some(Instruction::SetReg)
    } else if opcode == 2 {
        Some(Instruction::Push)
    } else if opcode == 3 {
        Some(Instruction::Pop)
    } else if opcode == 4 {
        Some(Instruction::Eq)
    } else if opcode == 5 {
        Some(Instruction::Gt)
    } else if opcode == 6 {
        Some(Instruction::Jmp)
    } else if opcode == 7 {
        Some(Instruction::Jt)
    } else if opcode == 8 {
        Some(Instruction::Jf)
    } else if opcode == 9 {
        Some(Instruction::Add)
    } else if opcode == 10 {
        Some(Instruction::Mult)
    } else if opcode == 11 {
        Some(Instruction::Mod)
    } else if opcode == 12 {
        Some(Instruction::And)
    } else if opcode == 13 {
        Some(Instruction::Or)
    } else if opcode == 14 {
        Some(Instruction::Not)
    } else if opcode == 15 {
        Some(Instruction::Rmem)
    } else if opcode == 16 {
        Some(Instruction::Wmem)
    } else if opcode == 17 {
        Some(Instruction::Call)
    } else if opcode == 18 {
        Some(Instruction::Ret)
    } else if opcode == 19 {
        Some(Instruction::Out)
    } else if opcode == 20 {
        Some(Instruction::In)
    } else if opcode == 21 {
        Some(Instruction::Nop)
    } else {
        None
    }
}

/// Encoding and decoding invert each other: decoding the code of an
/// instruction gives that instruction back, and any successful decode
/// returns an instruction whose code is the decoded word.
pub proof fn lemma_opcode_decode(opcode: u16, i: Instruction)
    ensures
        spec_from_opcode(opcode_of(i)) == Some(i),
        spec_from_opcode(opcode) == Some(i) ==> opcode_of(i) == opcode,
{
}

impl Instruction {
    /// The number of operand words following this opcode.
    pub fn arity(&self) -> (r: u16)
        ensures
            r == spec_arity(*self),
    {
        match *self {
            Instruction::Halt => 0,
            Instruction::SetReg => 2,
            Instruction::Push => 1,
            Instruction::Pop => 1,
            Instruction::Eq => 3,
            Instruction::Gt => 3,
            Instruction::Jmp => 1,
            Instruction::Jt => 2,
            Instruction::Jf => 2,
            Instruction::Add => 3,
            Instruction::Mult => 3,
            Instruction::Mod => 3,
            Instruction::And => 3,
            Instruction::Or => 3,
            Instruction::Not => 2,
            Instruction::Rmem => 2,
            Instruction::Wmem => 2,
            Instruction::Call => 1,
            Instruction::Ret => 0,
            Instruction::Out => 1,
            Instruction::In => 1,
            Instruction::Nop => 0,
        }
    }

    /// Decode a raw opcode word; `None` when the word names no instruction.
    pub fn from_opcode(opcode: u16) -> (r: Option<Instruction>)
        ensures
            r == spec_from_opcode(opcode),
    {
        match opcode {
            0 => Some(Instruction::Halt),
            1 => Some(Instruction::SetReg),
            2 => Some(Instruction::Push),
            3 => Some(Instruction::Pop),
            4 => Some(Instruction::Eq),
            5 => Some(Instruction::Gt),
            6 => Some(Instruction::Jmp),
            7 => Some(Instruction::Jt),
            8 => Some(Instruction::Jf),
            9 => Some(Instruction::Add),
            10 => Some(Instruction::Mult),
            11 => Some(Instruction::Mod),
            12 => Some(Instruction::And),
            13 => Some(Instruction::Or),
            14 => Some(Instruction::Not),
            15 => Some(Instruction::Rmem),
            16 => Some(Instruction::Wmem),
            17 => Some(Instruction::Call),
            18 => Some(Instruction::Ret),
            19 => Some(Instruction::Out),
            20 => Some(Instruction::In),
            21 => Some(Instruction::Nop),
            _ => None,
        }
    }

    /// Execute this instruction against the machine, with `arguments` the
    /// raw operand words that followed the opcode. Exactly the transition
    /// `exec_step` describes: on a fault the machine is untouched, and the
    /// program counter is never written here — the engine applies the
    /// returned `Action`.
    #[verifier::rlimit(60)]
    pub fn execute(&self, cpu: &mut CPU, arguments: &[u16]) -> (r: Result<Action, Fault>)
        requires
            old(cpu).wf(),
            arguments@.len() == spec_arity(*self),
        ensures
            final(cpu).wf(),
            match exec_step(*self, old(cpu)@, arguments@) {
                Ok((s2, act)) => r == Ok::<Action, Fault>(act) && final(cpu)@ == s2,
                Err(f) => r == Err::<Action, Fault>(f) && final(cpu)@ == old(cpu)@,
            },
    {
        match *self {
            Instruction::Halt => {
                cpu.running = false;
                assert(cpu@ =~= (State { running: false, ..old(cpu)@ }));
                Ok(Action::Continue)
            },
            Instruction::SetReg => {
                let v = match cpu.get_value(arguments[1]) {
                    Ok(v) => v,
                    Err(f) => return Err(f),
                };
                let d = (arguments[0] % 8) as usize;
                cpu.registers[d] = v;
                assert(cpu@ =~= reg_write(old(cpu)@, arguments@[0], v));
                Ok(Action::Continue)
            },
            Instruction::Push => {
                let v = match cpu.get_value(arguments[0]) {
                    Ok(v) => v,
                    Err(f) => return Err(f),
                };
                cpu.stack.push(v);
                assert(cpu@ =~= (State { stack: old(cpu)@.stack.push(v), ..old(cpu)@ }));
                Ok(Action::Continue)
            },
            Instruction::Pop => {
                if cpu.stack.len() == 0 {
                    return Err(Fault::StackUnderflow);
                }
                let v = cpu.stack.pop().unwrap();
                let d = (arguments[0] % 8) as usize;
                cpu.registers[d] = v;
                proof {
                    assert(cpu@.stack =~= old(cpu)@.stack.drop_last());
                    assert(cpu@ =~= (State {
                        stack: old(cpu)@.stack.drop_last(),
                        ..reg_write(old(cpu)@, arguments@[0], old(cpu)@.stack.last())
                    }));
                }
                Ok(Action::Continue)
            },
            Instruction::Eq => {
                let a = match cpu.get_value(arguments[1]) {
                    Ok(v) => v,
                    Err(f) => return Err(f),
                };
                let b = match cpu.get_value(arguments[2]) {
                    Ok(v) => v,
                    Err(f) => return Err(f),
                };
                let d = (arguments[0] % 8) as usize;
                let v: u16 = if a == b { 1 } else { 0 };
                cpu.registers[d] = v;
                assert(cpu@ =~= reg_write(old(cpu)@, arguments@[0], v));
                Ok(Action::Continue)
            },
            Instruction::Gt => {
                let a = match cpu.get_value(arguments[1]) {
                    Ok(v) => v,
                    Err(f) => return Err(f),
                };
                let b = match cpu.get_value(arguments[2]) {
                    Ok(v) => v,
                    Err(f) => return Err(f),
                };
                let d = (arguments[0] % 8) as usize;
                let v: u16 = if a > b { 1 } else { 0 };
                cpu.registers[d] = v;
                assert(cpu@ =~= reg_write(old(cpu)@, arguments@[0], v));
                Ok(Action::Continue)
            },
            Instruction::Jmp => {
                let t = match cpu.get_value(arguments[0]) {
                    Ok(v) => v,
                    Err(f) => return Err(f),
                };
                Ok(Action::JumpTo(t))
            },
            Instruction::Jt => {
                let test = match cpu.get_value(arguments[0]) {
                    Ok(v) => v,
                    Err(f) => return Err(f),
                };
                let t = match cpu.get_value(arguments[1]) {
                    Ok(v) => v,
                    Err(f) => return Err(f),
                };
                if test != 0 {
                    Ok(Action::JumpTo(t))
                } else {
                    Ok(Action::Continue)
                }
            },
            Instruction::Jf => {
                let test = match cpu.get_value(arguments[0]) {
                    Ok(v) => v,
                    Err(f) => return Err(f),
                };
                let t = match cpu.get_value(arguments[1]) {
                    Ok(v) => v,
                    Err(f) => return Err(f),
                };
                if test == 0 {
                    Ok(Action::JumpTo(t))
                } else {
                    Ok(Action::Continue)
                }
            },
            Instruction::Add => {
                let a = match cpu.get_value(arguments[1]) {
                    Ok(v) => v,
                    Err(f) => return Err(f),
                };
                let b = match cpu.get_value(arguments[2]) {
                    Ok(v) => v,
                    Err(f) => return Err(f),
                };
                let d = (arguments[0] % 8) as usize;
                let v: u16 = ((a as u32 + b as u32) % 32768) as u16;
                assert(v == add_val(a, b));
                cpu.registers[d] = v;
                assert(cpu@ =~= reg_write(old(cpu)@, arguments@[0], add_val(a, b)));
                Ok(Action::Continue)
            },
            Instruction::Mult => {
                let a = match cpu.get_value(arguments[1]) {
                    Ok(v) => v,
                    Err(f) => return Err(f),
                };
                let b = match cpu.get_value(arguments[2]) {
                    Ok(v) => v,
                    Err(f) => return Err(f),
                };
                let d = (arguments[0] % 8) as usize;
                assert((a as u32) * (b as u32) < 0x40000000) by (nonlinear_arith)
                    requires
                        a < 32768,
                        b < 32768,
                ;
                let prod: u32 = a as u32 * b as u32;
                let v: u16 = (prod % 32768) as u16;
                assert(v == mult_val(a, b));
                cpu.registers[d] = v;
                assert(cpu@ =~= reg_write(old(cpu)@, arguments@[0], mult_val(a, b)));
                Ok(Action::Continue)
            },
            Instruction::Mod => {
                let a = match cpu.get_value(arguments[1]) {
                    Ok(v) => v,
                    Err(f) => return Err(f),
                };
                let b = match cpu.get_value(arguments[2]) {
                    Ok(v) => v,
                    Err(f) => return Err(f),
                };
                if b == 0 {
                    return Err(Fault::DivideByZero);
                }
                let d = (arguments[0] % 8) as usize;
                let v: u16 = a % b;
                assert(v == mod_val(a, b));
                cpu.registers[d] = v;
                assert(cpu@ =~= reg_write(old(cpu)@, arguments@[0], mod_val(a, b)));
                Ok(Action::Continue)
            },
            Instruction::And => {
                let a = match cpu.get_value(arguments[1]) {
                    Ok(v) => v,
                    Err(f) => return Err(f),
                };
                let b = match cpu.get_value(arguments[2]) {
                    Ok(v) => v,
                    Err(f) => return Err(f),
                };
                let d = (arguments[0] % 8) as usize;
                let v: u16 = a & b;
                assert(v < 32768) by (bit_vector)
                    requires
                        a < 32768,
                        v == a & b,
                ;
                cpu.registers[d] = v;
                assert(cpu@ =~= reg_write(old(cpu)@, arguments@[0], v));
                Ok(Action::Continue)
            },
            Instruction::Or => {
                let a = match cpu.get_value(arguments[1]) {
                    Ok(v) => v,
                    Err(f) => return Err(f),
                };
                let b = match cpu.get_value(arguments[2]) {
                    Ok(v) => v,
                    Err(f) => return Err(f),
                };
                let d = (arguments[0] % 8) as usize;
                let v: u16 = a | b;
                assert(v < 32768) by (bit_vector)
                    requires
                        a < 32768,
                        b < 32768,
                        v == a | b,
                ;
                cpu.registers[d] = v;
                assert(cpu@ =~= reg_write(old(cpu)@, arguments@[0], v));
                Ok(Action::Continue)
            },
            Instruction::Not => {
                let a = match cpu.get_value(arguments[1]) {
                    Ok(v) => v,
                    Err(f) => return Err(f),
                };
                let d = (arguments[0] % 8) as usize;
                let v: u16 = 32767 - a;
                assert(v == not_val(a));
                cpu.registers[d] = v;
                assert(cpu@ =~= reg_write(old(cpu)@, arguments@[0], not_val(a)));
                Ok(Action::Continue)
            },
            Instruction::Rmem => {
                let addr = match cpu.get_value(arguments[1]) {
                    Ok(v) => v,
                    Err(f) => return Err(f),
                };
                let w = cpu.memory[addr as usize];
                if w >= 32768 {
                    return Err(Fault::NonLiteralWord(w));
                }
                let d = (arguments[0] % 8) as usize;
                cpu.registers[d] = w;
                assert(cpu@ =~= reg_write(old(cpu)@, arguments@[0], w));
                Ok(Action::Continue)
            },
            Instruction::Wmem => {
                let addr = match cpu.get_value(arguments[0]) {
                    Ok(v) => v,
                    Err(f) => return Err(f),
                };
                let v = match cpu.get_value(arguments[1]) {
                    Ok(v) => v,
                    Err(f) => return Err(f),
                };
                cpu.memory[addr as usize] = v;
                assert(cpu@ =~= (State {
                    memory: old(cpu)@.memory.update(addr as int, v),
                    ..old(cpu)@
                }));
                Ok(Action::Continue)
            },
            Instruction::Call => {
                let ret32: u32 = cpu.pc as u32 + 2;
                if ret32 >= 32768 {
                    return Err(Fault::PcOutOfRange(cpu.pc));
                }
                let t = match cpu.get_value(arguments[0]) {
                    Ok(v) => v,
                    Err(f) => return Err(f),
                };
                cpu.stack.push(ret32 as u16);
                assert(cpu@ =~= (State {
                    stack: old(cpu)@.stack.push((old(cpu)@.pc + 2) as u16),
                    ..old(cpu)@
                }));
                Ok(Action::JumpTo(t))
            },
            Instruction::Ret => {
                if cpu.stack.len() == 0 {
                    cpu.running = false;
                    assert(cpu@ =~= (State { running: false, ..old(cpu)@ }));
                    Ok(Action::Continue)
                } else {
                    let v = cpu.stack.pop().unwrap();
                    proof {
                        assert(cpu@.stack =~= old(cpu)@.stack.drop_last());
                        assert(cpu@ =~= (State {
                            stack: old(cpu)@.stack.drop_last(),
                            ..old(cpu)@
                        }));
                    }
                    Ok(Action::JumpTo(v))
                }
            },
            Instruction::Out => {
                let v = match cpu.get_value(arguments[0]) {
                    Ok(v) => v,
                    Err(f) => return Err(f),
                };
                cpu.output.push(v);
                assert(cpu@ =~= (State { output: old(cpu)@.output.push(v), ..old(cpu)@ }));
                Ok(Action::Continue)
            },
            Instruction::In => {
                let got = cpu.take_input(arguments[0]);
                proof {
                    lemma_in_spec_props(old(cpu)@, arguments@[0]);
                }
                if got {
                    Ok(Action::Continue)
                } else {
                    Ok(Action::AwaitInput)
                }
            },
            Instruction::Nop => {
                assert(cpu@ == old(cpu)@);
                Ok(Action::Continue)
            },
        }
    }
}

} // verus!
