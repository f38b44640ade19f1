use vstd::prelude::*;

use crate::instructions::{Instruction, opcode_of, spec_arity, spec_from_opcode};

verus! {

/// Number of words in the machine's address space.
pub const MEM_SIZE: usize = 32768;

/// Number of general-purpose registers.
pub const NUM_REGS: usize = 8;

/// Every literal value, register content and resolved operand lies below
/// this bound (the machine is 15-bit).
pub const MODULUS: u16 = 32768;

/// A fatal condition: the machine cannot continue past any of these.
#[derive(Clone, Copy, Debug, PartialEq, Eq, Structural)]
pub enum Fault {
    /// An operand encoding above 32775 where a resolved value was required.
    InvalidOperand(u16),
    /// The word at the program counter names no instruction
    /// (offending opcode, then its address).
    UnknownOpcode(u16, u16),
    /// The program counter, or an operand of the current instruction,
    /// lies outside the address space.
    PcOutOfRange(u16),
    /// `pop` was executed with nothing on the stack.
    StackUnderflow,
    /// `mod` was executed with a zero divisor.
    DivideByZero,
    /// `rmem` read a word too wide to be a register value.
    NonLiteralWord(u16),
}

/// What an instruction asks the engine to do with the program counter:
/// advance past the instruction, jump to an absolute address, or wait for
/// a line of external input before retrying.
#[derive(Clone, Copy, Debug, PartialEq, Eq, Structural)]
pub enum Action {
    Continue,
    JumpTo(u16),
    AwaitInput,
}

/// Result of one engine step that did not fault.
#[derive(Clone, Copy, Debug, PartialEq, Eq, Structural)]
pub enum StepOutcome {
    /// An instruction was fetched, decoded and executed.
    Ran,
    /// The current instruction reads input and the buffer is exhausted;
    /// nothing was consumed from the program's point of view. Feed a line
    /// and step again.
    NeedInput,
}

/// How a `run` call came to a stop (when it did not fault).
#[derive(Clone, Copy, Debug, PartialEq, Eq, Structural)]
pub enum RunOutcome {
    /// The running flag was cleared by `halt` or by `ret` on an empty stack.
    Halted,
    /// Input is needed; feed a line and call `run` again.
    NeedInput,
    /// The step budget was exhausted; call `run` again to continue.
    OutOfFuel,
}

/// What `command` made of a line handed to it.
#[derive(Clone, Copy, Debug, PartialEq, Eq, Structural)]
pub enum CmdOutcome {
    /// The line is not an administrative command.
    NotRecognized,
    /// The command was recognized and applied.
    Applied,
    /// `load` was recognized but there is no saved snapshot; the state is
    /// unchanged.
    NoSnapshot,
}

/// A deep copy of {memory, registers, stack, pc}, created by the `save`
/// command and consumed by `load`. The running flag and the input buffer
/// are deliberately not part of it.
pub struct Snapshot {
    pub memory: Vec<u16>,
    pub registers: Vec<u16>,
    pub stack: Vec<u16>,
    pub pc: u16,
}

/// Mathematical image of a `Snapshot`.
#[verifier::ext_equal]
pub ghost struct Snap {
    pub memory: Seq<u16>,
    pub registers: Seq<u16>,
    pub stack: Seq<u16>,
    pub pc: u16,
}

impl View for Snapshot {
    type V = Snap;

    open spec fn view(&self) -> Snap {
        Snap {
            memory: self.memory@,
            registers: self.registers@,
            stack: self.stack@,
            pc: self.pc,
        }
    }
}

impl Snap {
    /// A snapshot is well formed when restoring it yields a well formed
    /// machine again.
    pub open spec fn wf(self) -> bool {
        &&& self.memory.len() == MEM_SIZE
        &&& self.registers.len() == NUM_REGS
        &&& forall|i: int| 0 <= i < self.registers.len() ==> self.registers[i] < MODULUS
        &&& forall|i: int| 0 <= i < self.stack.len() ==> self.stack[i] < MODULUS
    }
}

/// Mathematical image of the whole machine; every contract in this module
/// speaks of values of this type.
#[verifier::ext_equal]
pub ghost struct State {
    pub memory: Seq<u16>,
    pub registers: Seq<u16>,
    pub stack: Seq<u16>,
    pub pc: u16,
    pub running: bool,
    pub input: Seq<u8>,
    pub output: Seq<u16>,
    pub lenient: bool,
    pub saved: Option<Snap>,
}

impl State {
    /// The machine's structural invariant: the address space has its fixed
    /// size, there are eight registers, and every register and every stacked
    /// word is a 15-bit value.
    pub open spec fn wf(self) -> bool {
        &&& self.memory.len() == MEM_SIZE
        &&& self.registers.len() == NUM_REGS
        &&& forall|i: int| 0 <= i < self.registers.len() ==> self.registers[i] < MODULUS
        &&& forall|i: int| 0 <= i < self.stack.len() ==> self.stack[i] < MODULUS
        &&& match self.saved {
            Some(s) => s.wf(),
            None => true,
        }
    }
}

/// Operand resolution, the machine's central rule: words in [0, 32767] are
/// literals, words in [32768, 32775] name a register whose content is the
/// value, and anything above resolves to nothing.
pub open spec fn resolve(s: State, v: u16) -> Option<u16> {
    if v < 32768 {
        Some(v)
    } else if v <= 32775 {
        Some(s.registers[v - 32768])
    } else {
        None
    }
}

/// ASCII whitespace, as stripped from the ends of a command line.
pub open spec fn is_ws(b: u8) -> bool {
    b == 32 || (9 <= b && b <= 13)
}

/// `s` with its leading whitespace removed.
pub open spec fn trim_front(s: Seq<u8>) -> Seq<u8>
    decreases s.len(),
{
    if s.len() > 0 && is_ws(s[0]) {
        trim_front(s.drop_first())
    } else {
        s
    }
}

/// `s` with its trailing whitespace removed.
pub open spec fn trim_back(s: Seq<u8>) -> Seq<u8>
    decreases s.len(),
{
    if s.len() > 0 && is_ws(s.last()) {
        trim_back(s.drop_last())
    } else {
        s
    }
}

/// `s` with whitespace removed from both ends.
pub open spec fn trimmed(s: Seq<u8>) -> Seq<u8> {
    trim_back(trim_front(s))
}

proof fn lemma_trim_front_skip(s: Seq<u8>, i: int)
    requires
        0 <= i <= s.len(),
        forall|j: int| 0 <= j < i ==> is_ws(s[j]),
    ensures
        trim_front(s) == trim_front(s.subrange(i, s.len() as int)),
    decreases i,
{
    if i == 0 {
        assert(s.subrange(0, s.len() as int) =~= s);
    } else {
        assert(is_ws(s[0]));
        assert(s.drop_first() =~= s.subrange(1, s.len() as int));
        lemma_trim_front_skip(s.drop_first(), i - 1);
        assert(s.drop_first().subrange(i - 1, s.drop_first().len() as int) =~= s.subrange(
            i,
            s.len() as int,
        ));
    }
}

proof fn lemma_trim_back_keep(s: Seq<u8>, i: int)
    requires
        0 <= i <= s.len(),
        forall|j: int| i <= j < s.len() ==> is_ws(s[j]),
    ensures
        trim_back(s) == trim_back(s.subrange(0, i)),
    decreases s.len() - i,
{
    if i == s.len() {
        assert(s.subrange(0, i) =~= s);
    } else {
        assert(is_ws(s.last()));
        assert(s.drop_last() =~= s.subrange(0, s.len() - 1));
        lemma_trim_back_keep(s.subrange(0, s.len() - 1), i);
        assert(s.subrange(0, s.len() - 1).subrange(0, i) =~= s.subrange(0, i));
    }
}

fn ws_byte(b: u8) -> (r: bool)
    ensures
        r == is_ws(b),
{
    b == 32 || (9 <= b && b <= 13)
}

/// The line with whitespace removed from both ends, as a fresh vector.
pub(crate) fn trim_bytes(line: &[u8]) -> (t: Vec<u8>)
    ensures
        t@ == trimmed(line@),
{
    let n = line.len();
    let mut lo: usize = 0;
    while lo < n && ws_byte(line[lo])
        invariant
            lo <= n,
            n == line@.len(),
            forall|j: int| 0 <= j < lo ==> is_ws(line@[j]),
        decreases n - lo,
    {
        lo = lo + 1;
    }
    let mut hi: usize = n;
    while hi > lo && ws_byte(line[hi - 1])
        invariant
            lo <= hi <= n,
            n == line@.len(),
            lo < n ==> !is_ws(line@[lo as int]),
            forall|j: int| 0 <= j < lo ==> is_ws(line@[j]),
            forall|j: int| hi <= j < n ==> is_ws(line@[j]),
        decreases hi,
    {
        hi = hi - 1;
    }
    proof {
        lemma_trim_front_skip(line@, lo as int);
        let m = line@.subrange(lo as int, n as int);
        assert(trim_front(line@) == m);
        lemma_trim_back_keep(m, hi - lo);
        assert(m.subrange(0, hi - lo) =~= line@.subrange(lo as int, hi as int));
        if hi > lo {
            assert(line@.subrange(lo as int, hi as int).last() == line@[hi - 1]);
        }
    }
    byte_range(line, lo, hi)
}

/// Index of the first line boundary in `s`, or its length when none.
pub open spec fn line_end(s: Seq<u8>) -> nat
    decreases s.len(),
{
    if s.len() == 0 {
        0
    } else if s[0] == 10 {
        0
    } else {
        1 + line_end(s.drop_first())
    }
}

proof fn lemma_line_end_at(s: Seq<u8>, i: int)
    requires
        0 <= i <= s.len(),
        forall|j: int| 0 <= j < i ==> s[j] != 10,
        i == s.len() || s[i] == 10,
    ensures
        line_end(s) == i,
    decreases i,
{
    if i > 0 {
        lemma_line_end_at(s.drop_first(), i - 1);
    }
}

fn find_line_end(v: &Vec<u8>) -> (k: usize)
    ensures
        k == line_end(v@),
        k <= v@.len(),
        k < v@.len() ==> v@[k as int] == 10,
        forall|j: int| 0 <= j < k ==> v@[j] != 10,
{
    let mut k: usize = 0;
    while k < v.len() && v[k] != 10
        invariant
            k <= v@.len(),
            forall|j: int| 0 <= j < k ==> v@[j] != 10,
        decreases v@.len() - k,
    {
        k = k + 1;
    }
    proof {
        lemma_line_end_at(v@, k as int);
    }
    k
}

/// `s` with every carriage return removed.
pub open spec fn strip_cr(s: Seq<u8>) -> Seq<u8>
    decreases s.len(),
{
    if s.len() == 0 {
        Seq::empty()
    } else if s[0] == 13 {
        strip_cr(s.drop_first())
    } else {
        seq![s[0]] + strip_cr(s.drop_first())
    }
}

fn strip_cr_bytes(bytes: &[u8]) -> (r: Vec<u8>)
    ensures
        r@ == strip_cr(bytes@),
{
    let n = bytes.len();
    let mut r: Vec<u8> = Vec::new();
    assert(bytes@.subrange(0, n as int) =~= bytes@);
    assert(Seq::<u8>::empty() + strip_cr(bytes@) =~= strip_cr(bytes@));
    let mut i: usize = 0;
    while i < n
        invariant
            i <= n,
            n == bytes@.len(),
            strip_cr(bytes@) == r@ + strip_cr(bytes@.subrange(i as int, n as int)),
        decreases n - i,
    {
        let ghost pre = bytes@.subrange(i as int, n as int);
        let ghost r0 = r@;
        assert(pre.drop_first() =~= bytes@.subrange(i + 1, n as int));
        let b = bytes[i];
        assert(b == pre[0]);
        if b != 13 {
            r.push(b);
            assert(r0 + (seq![b] + strip_cr(pre.drop_first())) =~= r@ + strip_cr(
                pre.drop_first(),
            ));
        }
        i = i + 1;
    }
    assert(bytes@.subrange(n as int, n as int) =~= Seq::<u8>::empty());
    assert(r@ + Seq::<u8>::empty() =~= r@);
    r
}

/// The bytes of the `save` command.
pub open spec fn save_word() -> Seq<u8> {
    seq![115, 97, 118, 101]
}

/// The bytes of the `load` command.
pub open spec fn load_word() -> Seq<u8> {
    seq![108, 111, 97, 100]
}

/// The bytes of the teleporter patch command.
pub open spec fn hack_word() -> Seq<u8> {
    seq![104, 97, 99, 107, 32, 116, 101, 108, 101, 112, 111, 114, 116, 101, 114]
}

/// Whether a line, once trimmed, is a member of the administrative command
/// vocabulary.
pub open spec fn is_cmd(line: Seq<u8>) -> bool {
    ||| trimmed(line) == save_word()
    ||| trimmed(line) == load_word()
    ||| trimmed(line) == hack_word()
}

/// The teleporter patch: one register and seven memory cells are rewritten
/// to fixed values.
pub open spec fn hack_patch(s: State) -> State {
    State {
        registers: s.registers.update(7, 25734u16),
        memory: s.memory.update(6027, 1u16).update(6028, 32769u16).update(6029, 32775u16).update(
            6030,
            1u16,
        ).update(6031, 32768u16).update(6032, 6u16).update(6033, 21u16),
        ..s
    }
}

/// Effect of one administrative line on the machine: the teleporter patch,
/// `save` (fill the snapshot slot from the live state), `load` (restore the
/// live state from the slot and clear it; without a snapshot nothing
/// changes), or nothing for an unrecognized line. The input and output
/// channels are never touched.
pub open spec fn apply_cmd(s: State, line: Seq<u8>) -> State {
    if trimmed(line) == hack_word() {
        hack_patch(s)
    } else if trimmed(line) == save_word() {
        State {
            saved: Some(
                Snap { memory: s.memory, registers: s.registers, stack: s.stack, pc: s.pc },
            ),
            ..s
        }
    } else if trimmed(line) == load_word() {
        match s.saved {
            Some(sv) => State {
                memory: sv.memory,
                registers: sv.registers,
                stack: sv.stack,
                pc: sv.pc,
                saved: None,
                ..s
            },
            None => s,
        }
    } else {
        s
    }
}

/// Outcome of the input protocol run on a given machine state.
#[verifier::ext_equal]
pub ghost enum InOutcome {
    /// The buffer ran out before a character could be handed over; the
    /// state reflects any administrative lines already consumed.
    Blocked(State),
    /// A character was consumed and written to the destination register.
    Consumed(State),
}

/// The input protocol: skip carriage returns; while the buffer's head line
/// is an administrative command, apply it and drop the line without the
/// program ever seeing it; then hand the single next character to register
/// `dst % 8`. An exhausted buffer blocks.
pub open spec fn in_spec(s: State, dst: u16) -> InOutcome
    decreases s.input.len(),
{
    if s.input.len() == 0 {
        InOutcome::Blocked(s)
    } else if s.input[0] == 13 {
        in_spec(State { input: s.input.drop_first(), ..s }, dst)
    } else if s.input[0] == 10 {
        InOutcome::Consumed(
            State {
                registers: s.registers.update((dst % 8) as int, 10u16),
                input: s.input.drop_first(),
                ..s
            },
        )
    } else {
        let k = line_end(s.input);
        let line = s.input.subrange(0, k as int);
        if is_cmd(line) {
            let rest = if k < s.input.len() {
                s.input.subrange(k + 1 as int, s.input.len() as int)
            } else {
                Seq::empty()
            };
            in_spec(State { input: rest, ..apply_cmd(s, line) }, dst)
        } else {
            InOutcome::Consumed(
                State {
                    registers: s.registers.update((dst % 8) as int, s.input[0] as u16),
                    input: s.input.drop_first(),
                    ..s
                },
            )
        }
    }
}

/// An administrative line changes neither the running flag, the output
/// channel, the leniency switch, nor well-formedness.
pub proof fn lemma_apply_cmd_props(s: State, line: Seq<u8>)
    requires
        s.wf(),
    ensures
        apply_cmd(s, line).wf(),
        apply_cmd(s, line).running == s.running,
        apply_cmd(s, line).output == s.output,
        apply_cmd(s, line).lenient == s.lenient,
        apply_cmd(s, line).input == s.input,
{
}

/// The input protocol preserves well-formedness, the running flag, the
/// output channel and the leniency switch, and blocks only on an empty
/// buffer.
pub proof fn lemma_in_spec_props(s: State, dst: u16)
    requires
        s.wf(),
    ensures
        match in_spec(s, dst) {
            InOutcome::Blocked(s2) => s2.wf() && s2.input.len() == 0 && s2.running == s.running
                && s2.output == s.output && s2.lenient == s.lenient,
            InOutcome::Consumed(s2) => s2.wf() && s2.running == s.running && s2.output == s.output
                && s2.lenient == s.lenient,
        },
    decreases s.input.len(),
{
    if s.input.len() == 0 {
    } else if s.input[0] == 13 {
        lemma_in_spec_props(State { input: s.input.drop_first(), ..s }, dst);
    } else if s.input[0] == 10 {
    } else {
        let k = line_end(s.input);
        let line = s.input.subrange(0, k as int);
        if is_cmd(line) {
            let rest = if k < s.input.len() {
                s.input.subrange(k + 1 as int, s.input.len() as int)
            } else {
                Seq::empty()
            };
            lemma_apply_cmd_props(s, line);
            lemma_in_spec_props(State { input: rest, ..apply_cmd(s, line) }, dst);
        }
    }
}

/// `s` with value `v` stored in the register that the raw destination
/// operand `d` names. Destinations are never value-resolved: the register
/// index is `d` modulo 8.
pub open spec fn reg_write(s: State, d: u16, v: u16) -> State {
    State { registers: s.registers.update((d % 8) as int, v), ..s }
}

/// Wrapping 15-bit sum.
pub open spec fn add_val(a: u16, b: u16) -> u16 {
    ((a + b) % 32768) as u16
}

/// Wrapping 15-bit product.
pub open spec fn mult_val(a: u16, b: u16) -> u16 {
    ((a * b) % 32768) as u16
}

/// Remainder; meaningful only for a nonzero divisor.
pub open spec fn mod_val(a: u16, b: u16) -> u16 {
    (a as int % b as int) as u16
}

/// 15-bit bitwise complement of a 15-bit value.
pub open spec fn not_val(a: u16) -> u16 {
    ((32767 - a) % 32768) as u16
}

/// Resolve two operand encodings in order; the first failure wins.
pub open spec fn resolve2(s: State, x: u16, y: u16) -> Result<(u16, u16), Fault> {
    match resolve(s, x) {
        None => Err(Fault::InvalidOperand(x)),
        Some(a) => match resolve(s, y) {
            None => Err(Fault::InvalidOperand(y)),
            Some(b) => Ok((a, b)),
        },
    }
}

/// The semantics of one instruction: given the pre-state and the raw
/// operand words, either the post-state paired with what the engine should
/// do with the program counter, or the fault that stops the machine. A
/// faulting instruction changes nothing. The program counter itself is
/// never touched here; jumps are reported through `Action::JumpTo`.
pub open spec fn exec_step(i: Instruction, s: State, args: Seq<u16>) -> Result<
    (State, Action),
    Fault,
> {
    match i {
        Instruction::Halt => Ok((State { running: false, ..s }, Action::Continue)),
        Instruction::SetReg => match resolve(s, args[1]) {
            Some(v) => Ok((reg_write(s, args[0], v), Action::Continue)),
            None => Err(Fault::InvalidOperand(args[1])),
        },
        Instruction::Push => match resolve(s, args[0]) {
            Some(v) => Ok((State { stack: s.stack.push(v), ..s }, Action::Continue)),
            None => Err(Fault::InvalidOperand(args[0])),
        },
        Instruction::Pop => if s.stack.len() == 0 {
            Err(Fault::StackUnderflow)
        } else {
            Ok(
                (
                    State {
                        stack: s.stack.drop_last(),
                        ..reg_write(s, args[0], s.stack.last())
                    },
                    Action::Continue,
                ),
            )
        },
        Instruction::Eq => match resolve2(s, args[1], args[2]) {
            Err(f) => Err(f),
            Ok((a, b)) => Ok(
                (
                    reg_write(s, args[0], if a == b { 1u16 } else { 0u16 }),
                    Action::Continue,
                ),
            ),
        },
        Instruction::Gt => match resolve2(s, args[1], args[2]) {
            Err(f) => Err(f),
            Ok((a, b)) => Ok(
                (
                    reg_write(s, args[0], if a > b { 1u16 } else { 0u16 }),
                    Action::Continue,
                ),
            ),
        },
        Instruction::Jmp => match resolve(s, args[0]) {
            Some(t) => Ok((s, Action::JumpTo(t))),
            None => Err(Fault::InvalidOperand(args[0])),
        },
        Instruction::Jt => match resolve2(s, args[0], args[1]) {
            Err(f) => Err(f),
            Ok((test, t)) => Ok((s, if test != 0 {
                Action::JumpTo(t)
            } else {
                Action::Continue
            })),
        },
        Instruction::Jf => match resolve2(s, args[0], args[1]) {
            Err(f) => Err(f),
            Ok((test, t)) => Ok((s, if test == 0 {
                Action::JumpTo(t)
            } else {
                Action::Continue
            })),
        },
        Instruction::Add => match resolve2(s, args[1], args[2]) {
            Err(f) => Err(f),
            Ok((a, b)) => Ok((reg_write(s, args[0], add_val(a, b)), Action::Continue)),
        },
        Instruction::Mult => match resolve2(s, args[1], args[2]) {
            Err(f) => Err(f),
            Ok((a, b)) => Ok((reg_write(s, args[0], mult_val(a, b)), Action::Continue)),
        },
        Instruction::Mod => match resolve2(s, args[1], args[2]) {
            Err(f) => Err(f),
            Ok((a, b)) => if b == 0 {
                Err(Fault::DivideByZero)
            } else {
                Ok((reg_write(s, args[0], mod_val(a, b)), Action::Continue))
            },
        },
        Instruction::And => match resolve2(s, args[1], args[2]) {
            Err(f) => Err(f),
            Ok((a, b)) => Ok((reg_write(s, args[0], a & b), Action::Continue)),
        },
        Instruction::Or => match resolve2(s, args[1], args[2]) {
            Err(f) => Err(f),
            Ok((a, b)) => Ok((reg_write(s, args[0], a | b), Action::Continue)),
        },
        Instruction::Not => match resolve(s, args[1]) {
            Some(v) => Ok((reg_write(s, args[0], not_val(v)), Action::Continue)),
            None => Err(Fault::InvalidOperand(args[1])),
        },
        Instruction::Rmem => match resolve(s, args[1]) {
            Some(addr) => {
                let w = s.memory[addr as int];
                if w >= 32768 {
                    Err(Fault::NonLiteralWord(w))
                } else {
                    Ok((reg_write(s, args[0], w), Action::Continue))
                }
            },
            None => Err(Fault::InvalidOperand(args[1])),
        },
        Instruction::Wmem => match resolve2(s, args[0], args[1]) {
            Err(f) => Err(f),
            Ok((addr, v)) => Ok(
                (State { memory: s.memory.update(addr as int, v), ..s }, Action::Continue),
            ),
        },
        Instruction::Call => if s.pc + 2 >= 32768 {
            Err(Fault::PcOutOfRange(s.pc))
        } else {
            match resolve(s, args[0]) {
                Some(t) => Ok(
                    (
                        State { stack: s.stack.push((s.pc + 2) as u16), ..s },
                        Action::JumpTo(t),
                    ),
                ),
                None => Err(Fault::InvalidOperand(args[0])),
            }
        },
        Instruction::Ret => if s.stack.len() == 0 {
            Ok((State { running: false, ..s }, Action::Continue))
        } else {
            Ok((State { stack: s.stack.drop_last(), ..s }, Action::JumpTo(s.stack.last())))
        },
        Instruction::Out => match resolve(s, args[0]) {
            Some(v) => Ok((State { output: s.output.push(v), ..s }, Action::Continue)),
            None => Err(Fault::InvalidOperand(args[0])),
        },
        Instruction::In => match in_spec(s, args[0]) {
            InOutcome::Blocked(s2) => Ok((s2, Action::AwaitInput)),
            InOutcome::Consumed(s2) => Ok((s2, Action::Continue)),
        },
        Instruction::Nop => Ok((s, Action::Continue)),
    }
}

/// One line of a disassembly listing: an address, the instruction decoded
/// there, and the raw operand words that followed the opcode.
pub struct DisEntry {
    pub addr: u16,
    pub opcode: Instruction,
    pub args: Vec<u16>,
}

/// Re-encoding of a listing entry: the opcode's numeric code followed by
/// its raw operand words.
pub open spec fn entry_words(e: DisEntry) -> Seq<u16> {
    seq![opcode_of(e.opcode)] + e.args@
}

/// The addresses a disassembly walk of `mem` lists from address `a` on:
/// wherever the word decodes and its operands still fit in memory, the
/// address is listed and the walk continues past the whole instruction;
/// any other address is skipped one word at a time.
pub open spec fn walk_addrs(mem: Seq<u16>, a: int) -> Seq<int>
    decreases MEM_SIZE - a,
{
    if a >= MEM_SIZE {
        Seq::empty()
    } else {
        match spec_from_opcode(mem[a]) {
            Some(i) => {
                let ar = spec_arity(i);
                if a + ar < MEM_SIZE {
                    seq![a] + walk_addrs(mem, a + ar + 1)
                } else {
                    walk_addrs(mem, a + 1)
                }
            },
            None => walk_addrs(mem, a + 1),
        }
    }
}

/// One engine step on a state: fetch the opcode at the program counter,
/// decode it, read its operand words, run `exec_step`, and apply the
/// resulting control-flow action — a sequential advance past the whole
/// instruction, or the literal jump target, never a mixture of the two. A
/// word that names no instruction is fatal unless the machine was made
/// lenient, in which case it is skipped like `nop`. A fault leaves the
/// state untouched.
pub open spec fn step_spec(s: State) -> Result<(State, StepOutcome), Fault> {
    if s.pc >= 32768 {
        Err(Fault::PcOutOfRange(s.pc))
    } else {
        let op = s.memory[s.pc as int];
        match spec_from_opcode(op) {
            None => if s.lenient {
                Ok((State { pc: (s.pc + 1) as u16, ..s }, StepOutcome::Ran))
            } else {
                Err(Fault::UnknownOpcode(op, s.pc))
            },
            Some(i) => {
                let ar = spec_arity(i);
                if s.pc + ar >= 32768 {
                    Err(Fault::PcOutOfRange(s.pc))
                } else {
                    let args = s.memory.subrange(s.pc + 1, s.pc + 1 + ar);
                    match exec_step(i, s, args) {
                        Err(f) => Err(f),
                        Ok((s2, Action::Continue)) => Ok(
                            (
                                State { pc: (((s2.pc + ar + 1) % 65536) as u16), ..s2 },
                                StepOutcome::Ran,
                            ),
                        ),
                        Ok((s2, Action::JumpTo(t))) => Ok(
                            (State { pc: t, ..s2 }, StepOutcome::Ran),
                        ),
                        Ok((s2, Action::AwaitInput)) => Ok((s2, StepOutcome::NeedInput)),
                    }
                }
            },
        }
    }
}

/// A step that asks for input has drained the buffer without touching the
/// running flag.
pub proof fn lemma_step_spec_props(s: State)
    requires
        s.wf(),
    ensures
        match step_spec(s) {
            Ok((s2, k)) => k == StepOutcome::NeedInput ==> s2.input.len() == 0 && s2.running
                == s.running,
            Err(_) => true,
        },
{
    if s.pc < 32768 {
        let op = s.memory[s.pc as int];
        match spec_from_opcode(op) {
            None => {},
            Some(i) => {
                let ar = spec_arity(i);
                if s.pc + ar < 32768 {
                    let args = s.memory.subrange(s.pc + 1, s.pc + 1 + ar);
                    match i {
                        Instruction::In => {
                            lemma_in_spec_props(s, args[0]);
                        },
                        _ => {},
                    }
                }
            },
        }
    }
}

/// Repeated stepping, at most `fuel` instructions: the final state paired
/// with how the loop stopped — the running flag cleared, input needed,
/// the budget exhausted, or a fault (which leaves the faulting step's
/// pre-state).
pub open spec fn run_spec(s: State, fuel: nat) -> (State, Result<RunOutcome, Fault>)
    decreases fuel,
{
    if !s.running {
        (s, Ok(RunOutcome::Halted))
    } else if fuel == 0 {
        (s, Ok(RunOutcome::OutOfFuel))
    } else {
        match step_spec(s) {
            Err(f) => (s, Err(f)),
            Ok((s2, StepOutcome::NeedInput)) => (s2, Ok(RunOutcome::NeedInput)),
            Ok((s2, StepOutcome::Ran)) => run_spec(s2, (fuel - 1) as nat),
        }
    }
}

/// The machine: memory, registers, stack, program counter, running flag,
/// the input and output channels, the leniency switch for unknown opcodes,
/// and the single snapshot slot.
pub struct CPU {
    pub memory: Vec<u16>,
    pub registers: Vec<u16>,
    pub stack: Vec<u16>,
    pub pc: u16,
    pub running: bool,
    pub input_buffer: Vec<u8>,
    pub output: Vec<u16>,
    pub lenient: bool,
    pub saved: Option<Snapshot>,
}

impl View for CPU {
    type V = State;

    open spec fn view(&self) -> State {
        State {
            memory: self.memory@,
            registers: self.registers@,
            stack: self.stack@,
            pc: self.pc,
            running: self.running,
            input: self.input_buffer@,
            output: self.output@,
            lenient: self.lenient,
            saved: match self.saved {
                Some(ref s) => Some(s@),
                None => None,
            },
        }
    }
}

/// A vector of `n` zero words.
fn zero_words(n: usize) -> (r: Vec<u16>)
    ensures
        r@.len() == n,
        forall|i: int| 0 <= i < n ==> r@[i] == 0u16,
{
    let mut r: Vec<u16> = Vec::new();
    let mut k: usize = 0;
    while k < n
        invariant
            k <= n,
            r@.len() == k,
            forall|i: int| 0 <= i < k ==> r@[i] == 0u16,
        decreases n - k,
    {
        r.push(0);
        k = k + 1;
    }
    r
}

/// A copy of a word vector.
pub(crate) fn copy_words(v: &Vec<u16>) -> (r: Vec<u16>)
    ensures
        r@ == v@,
{
    let mut r: Vec<u16> = Vec::new();
    let mut k: usize = 0;
    while k < v.len()
        invariant
            k <= v@.len(),
            r@ == v@.subrange(0, k as int),
        decreases v@.len() - k,
    {
        r.push(v[k]);
        assert(r@ =~= v@.subrange(0, k + 1 as int));
        k = k + 1;
    }
    assert(r@ =~= v@);
    r
}

/// The bytes of `v` from `lo` (inclusive) to `hi` (exclusive), as a fresh
/// vector.
pub(crate) fn byte_range(v: &[u8], lo: usize, hi: usize) -> (r: Vec<u8>)
    requires
        lo <= hi <= v@.len(),
    ensures
        r@ == v@.subrange(lo as int, hi as int),
{
    let mut r: Vec<u8> = Vec::new();
    let mut k: usize = lo;
    while k < hi
        invariant
            lo <= k <= hi <= v@.len(),
            r@ == v@.subrange(lo as int, k as int),
        decreases hi - k,
    {
        r.push(v[k]);
        assert(r@ =~= v@.subrange(lo as int, k + 1 as int));
        k = k + 1;
    }
    r
}

/// The 16-bit word beginning at byte `2 * i` of a little-endian byte
/// stream.
pub open spec fn le_word(bytes: Seq<u8>, i: int) -> u16 {
    (bytes[2 * i] + 256 * bytes[2 * i + 1]) as u16
}

impl CPU {
    /// The machine's structural invariant; see `State::wf`.
    pub open spec fn wf(&self) -> bool {
        self@.wf()
    }

    /// A fresh machine: zeroed memory and registers, empty stack, pc at 0,
    /// running, both channels empty, strict decoding, nothing saved.
    pub fn new() -> (c: CPU)
        ensures
            c.wf(),
            c@.memory.len() == MEM_SIZE,
            forall|i: int| 0 <= i < MEM_SIZE ==> c@.memory[i] == 0u16,
            c@.registers.len() == NUM_REGS,
            forall|i: int| 0 <= i < NUM_REGS ==> c@.registers[i] == 0u16,
            c@.stack.len() == 0,
            c@.pc == 0,
            c@.running,
            c@.input.len() == 0,
            c@.output.len() == 0,
            !c@.lenient,
            c@.saved is None,
    {
        CPU {
            memory: zero_words(MEM_SIZE),
            registers: zero_words(NUM_REGS),
            stack: Vec::new(),
            pc: 0,
            running: true,
            input_buffer: Vec::new(),
            output: Vec::new(),
            lenient: false,
            saved: None,
        }
    }

    /// Load a program image: a flat sequence of little-endian 16-bit words,
    /// written verbatim into memory from address 0. Loading stops at the end
    /// of the bytes or when memory is full, whichever comes first; a trailing
    /// lone byte is ignored.
    pub fn load_image(&mut self, bytes: &[u8])
        requires
            old(self).wf(),
        ensures
            final(self).wf(),
            final(self)@.memory.len() == MEM_SIZE,
            forall|i: int|
                0 <= i < MEM_SIZE ==> final(self)@.memory[i] == (if 2 * i + 1 < bytes@.len() {
                    le_word(bytes@, i)
                } else {
                    old(self)@.memory[i]
                }),
            final(self)@ == (State { memory: final(self)@.memory, ..old(self)@ }),
    {
        let mut i: usize = 0;
        while i < MEM_SIZE && 2 * i + 1 < bytes.len()
            invariant
                old(self).wf(),
                self.wf(),
                i <= MEM_SIZE,
                self@.memory.len() == MEM_SIZE,
                forall|j: int|
                    0 <= j < i ==> self@.memory[j] == (if 2 * j + 1 < bytes@.len() {
                        le_word(bytes@, j)
                    } else {
                        old(self)@.memory[j]
                    }),
                forall|j: int| i <= j < MEM_SIZE ==> self@.memory[j] == old(self)@.memory[j],
                self@ == (State { memory: self@.memory, ..old(self)@ }),
            decreases MEM_SIZE - i,
        {
            let lo = bytes[2 * i];
            let hi = bytes[2 * i + 1];
            let w: u16 = lo as u16 + 256 * (hi as u16);
            self.memory[i] = w;
            assert(self@ =~= (State { memory: self@.memory, ..old(self)@ }));
            i = i + 1;
        }
    }

    /// Resolve one operand encoding to a value (see `resolve`); the single
    /// primitive every value operand passes through. Fails with
    /// `InvalidOperand` for encodings above 32775.
    pub fn get_value(&self, value: u16) -> (r: Result<u16, Fault>)
        requires
            self.wf(),
        ensures
            match resolve(self@, value) {
                Some(v) => r == Ok::<u16, Fault>(v) && v < MODULUS,
                None => r == Err::<u16, Fault>(Fault::InvalidOperand(value)),
            },
    {
        if value < 32768 {
            Ok(value)
        } else if value <= 32775 {
            Ok(self.registers[(value - 32768) as usize])
        } else {
            Err(Fault::InvalidOperand(value))
        }
    }

    /// Rewrite the teleporter check: register 7 gets the magic value and the
    /// checking routine is overwritten with code that forces its result.
    pub(crate) fn hack(&mut self)
        requires
            old(self).wf(),
        ensures
            final(self).wf(),
            final(self)@ == hack_patch(old(self)@),
    {
        self.registers[7] = 25734;
        self.memory[6027] = 1;
        self.memory[6028] = 32769;
        self.memory[6029] = 32775;
        self.memory[6030] = 1;
        self.memory[6031] = 32768;
        self.memory[6032] = 6;
        self.memory[6033] = 21;
        assert(self@ =~= hack_patch(old(self)@));
    }

    /// Interpret one line as an administrative command and apply it to the
    /// machine (see `apply_cmd`). Reports whether the line was recognized,
    /// and reports `load` without a prior `save` as an operator error that
    /// changes nothing.
    pub fn command(&mut self, line: &[u8]) -> (r: CmdOutcome)
        requires
            old(self).wf(),
        ensures
            final(self).wf(),
            final(self)@ == apply_cmd(old(self)@, line@),
            (r == CmdOutcome::NotRecognized) == !is_cmd(line@),
            (r == CmdOutcome::NoSnapshot) == (trimmed(line@) == load_word() && old(
                self,
            )@.saved is None),
    {
        let t = trim_bytes(line);
        if t.len() == 15 && t[0] == 104 && t[1] == 97 && t[2] == 99 && t[3] == 107 && t[4]
            == 32 && t[5] == 116 && t[6] == 101 && t[7] == 108 && t[8] == 101 && t[9] == 112
            && t[10] == 111 && t[11] == 114 && t[12] == 116 && t[13] == 101 && t[14] == 114 {
            assert(t@ =~= hack_word());
            self.hack();
            CmdOutcome::Applied
        } else if t.len() == 4 && t[0] == 115 && t[1] == 97 && t[2] == 118 && t[3] == 101 {
            assert(t@ =~= save_word());
            let memory = copy_words(&self.memory);
            let registers = copy_words(&self.registers);
            let stack = copy_words(&self.stack);
            let snap = Snapshot { memory, registers, stack, pc: self.pc };
            self.saved = Some(snap);
            proof {
                let s2 = apply_cmd(old(self)@, line@);
                assert(self@.saved.unwrap() =~= s2.saved.unwrap());
                assert(self@ =~= s2);
            }
            CmdOutcome::Applied
        } else if t.len() == 4 && t[0] == 108 && t[1] == 111 && t[2] == 97 && t[3] == 100 {
            assert(t@ =~= load_word());
            if self.saved.is_some() {
                let memory = copy_words(&self.saved.as_ref().unwrap().memory);
                let registers = copy_words(&self.saved.as_ref().unwrap().registers);
                let stack = copy_words(&self.saved.as_ref().unwrap().stack);
                let pc = self.saved.as_ref().unwrap().pc;
                self.memory = memory;
                self.registers = registers;
                self.stack = stack;
                self.pc = pc;
                self.saved = None;
                assert(self@ =~= apply_cmd(old(self)@, line@));
                CmdOutcome::Applied
            } else {
                assert(self@ =~= apply_cmd(old(self)@, line@));
                CmdOutcome::NoSnapshot
            }
        } else {
            proof {
                if is_cmd(line@) {
                    assert(false);
                }
            }
            CmdOutcome::NotRecognized
        }
    }

    /// One step of the fetch-decode-dispatch loop, exactly as `step_spec`
    /// describes it: the instruction at the program counter is decoded,
    /// its operands gathered and executed, and the one resulting
    /// control-flow action applied. A fault is returned with the machine
    /// untouched.
    pub fn execute_next(&mut self) -> (r: Result<StepOutcome, Fault>)
        requires
            old(self).wf(),
        ensures
            final(self).wf(),
            match step_spec(old(self)@) {
                Ok((s2, k)) => r == Ok::<StepOutcome, Fault>(k) && final(self)@ == s2,
                Err(f) => r == Err::<StepOutcome, Fault>(f) && final(self)@ == old(self)@,
            },
    {
        if self.pc >= 32768 {
            return Err(Fault::PcOutOfRange(self.pc));
        }
        let op_val = self.memory[self.pc as usize];
        match Instruction::from_opcode(op_val) {
            None => {
                if self.lenient {
                    self.pc = self.pc + 1;
                    assert(self@ =~= (State { pc: (old(self)@.pc + 1) as u16, ..old(self)@ }));
                    Ok(StepOutcome::Ran)
                } else {
                    Err(Fault::UnknownOpcode(op_val, self.pc))
                }
            },
            Some(inst) => {
                let ar = inst.arity();
                if self.pc as u32 + ar as u32 >= 32768 {
                    return Err(Fault::PcOutOfRange(self.pc));
                }
                let mut args: Vec<u16> = Vec::new();
                let mut i: u16 = 0;
                while i < ar
                    invariant
                        i <= ar,
                        self@ == old(self)@,
                        self.wf(),
                        self@.pc + ar < 32768,
                        args@ == self@.memory.subrange(
                            self@.pc + 1,
                            self@.pc + 1 + i,
                        ),
                    decreases ar - i,
                {
                    args.push(self.memory[(self.pc + 1 + i) as usize]);
                    assert(args@ =~= self@.memory.subrange(self@.pc + 1, self@.pc + 1 + i + 1));
                    i = i + 1;
                }
                let ghost args_spec = old(self)@.memory.subrange(
                    old(self)@.pc + 1,
                    old(self)@.pc + 1 + spec_arity(inst),
                );
                assert(args@ == args_spec);
                let res = inst.execute(self, args.as_slice());
                match res {
                    Err(f) => Err(f),
                    Ok(Action::Continue) => {
                        let np: u32 = (self.pc as u32 + ar as u32 + 1) % 65536;
                        let ghost s2 = exec_step(inst, old(self)@, args_spec).unwrap().0;
                        self.pc = np as u16;
                        assert(self@ =~= (State {
                            pc: (((s2.pc + ar + 1) % 65536) as u16),
                            ..s2
                        }));
                        Ok(StepOutcome::Ran)
                    },
                    Ok(Action::JumpTo(t)) => {
                        let ghost s2 = exec_step(inst, old(self)@, args_spec).unwrap().0;
                        self.pc = t;
                        assert(self@ =~= (State { pc: t, ..s2 }));
                        Ok(StepOutcome::Ran)
                    },
                    Ok(Action::AwaitInput) => Ok(StepOutcome::NeedInput),
                }
            },
        }
    }

    /// Run the fetch-decode-dispatch loop: step while the running flag is
    /// set, at most `fuel` instructions. Exactly `run_spec`; stops on a
    /// cleared running flag, an exhausted input buffer, an exhausted
    /// budget, or a fault.
    pub fn run(&mut self, fuel: u64) -> (r: Result<RunOutcome, Fault>)
        requires
            old(self).wf(),
        ensures
            final(self).wf(),
            (final(self)@, r) == run_spec(old(self)@, fuel as nat),
            r == Ok::<RunOutcome, Fault>(RunOutcome::Halted) ==> !final(self)@.running,
            r == Ok::<RunOutcome, Fault>(RunOutcome::NeedInput) ==> final(self)@.running
                && final(self)@.input.len() == 0,
            r == Ok::<RunOutcome, Fault>(RunOutcome::OutOfFuel) ==> final(self)@.running,
    {
        let mut n: u64 = fuel;
        loop
            invariant
                self.wf(),
                run_spec(old(self)@, fuel as nat) == run_spec(self@, n as nat),
            decreases n,
        {
            if !self.running {
                return Ok(RunOutcome::Halted);
            }
            if n == 0 {
                return Ok(RunOutcome::OutOfFuel);
            }
            let ghost pre = self@;
            let res = self.execute_next();
            match res {
                Err(f) => {
                    return Err(f);
                },
                Ok(StepOutcome::NeedInput) => {
                    proof {
                        lemma_step_spec_props(pre);
                    }
                    return Ok(RunOutcome::NeedInput);
                },
                Ok(StepOutcome::Ran) => {
                    n = n - 1;
                },
            }
        }
    }

    /// Append one line of external input to the buffer: its carriage
    /// returns are dropped and a line boundary is appended after it.
    pub fn feed_line(&mut self, bytes: &[u8])
        ensures
            final(self)@ == (State {
                input: old(self)@.input + strip_cr(bytes@) + seq![10u8],
                ..old(self)@
            }),
            old(self).wf() ==> final(self).wf(),
    {
        let mut extra = strip_cr_bytes(bytes);
        self.input_buffer.append(&mut extra);
        self.input_buffer.push(10);
        assert(self@ =~= (State {
            input: old(self)@.input + strip_cr(bytes@) + seq![10u8],
            ..old(self)@
        }));
    }

    /// Replace the input buffer wholesale, e.g. with a prepared script; the
    /// bytes keep their own line boundaries, carriage returns are dropped.
    pub fn set_input(&mut self, bytes: &[u8])
        ensures
            final(self)@ == (State { input: strip_cr(bytes@), ..old(self)@ }),
            old(self).wf() ==> final(self).wf(),
    {
        let fresh = strip_cr_bytes(bytes);
        self.input_buffer = fresh;
        assert(self@ =~= (State { input: strip_cr(bytes@), ..old(self)@ }));
    }

    /// A read-only disassembly walk from address 0: wherever a word decodes
    /// to an instruction whose operands still fit in memory, one entry is
    /// listed and the walk continues past it; any other address is skipped
    /// one word at a time. The listed addresses are exactly `walk_addrs` of
    /// memory — so the listing is complete, and a pure function of memory —
    /// and re-encoding any listed entry reproduces exactly the words of
    /// memory it was decoded from.
    pub fn dis(&self) -> (r: Vec<DisEntry>)
        requires
            self.wf(),
        ensures
            r@.map_values(|e: DisEntry| e.addr as int) == walk_addrs(self@.memory, 0),
            forall|j: int|
                0 <= j < r@.len() ==> {
                    let e = #[trigger] r@[j];
                    &&& e.addr + spec_arity(e.opcode) < MEM_SIZE
                    &&& spec_from_opcode(self@.memory[e.addr as int]) == Some(e.opcode)
                    &&& e.args@ == self@.memory.subrange(
                        e.addr + 1,
                        e.addr + 1 + spec_arity(e.opcode),
                    )
                    &&& entry_words(e) == self@.memory.subrange(
                        e.addr as int,
                        e.addr + 1 + spec_arity(e.opcode),
                    )
                },
    {
        let mut r: Vec<DisEntry> = Vec::new();
        let mut pc: usize = 0;
        assert(r@.map_values(|e: DisEntry| e.addr as int) =~= Seq::<int>::empty());
        assert(Seq::<int>::empty() + walk_addrs(self@.memory, 0) =~= walk_addrs(self@.memory, 0));
        while pc < MEM_SIZE
            invariant
                self.wf(),
                pc <= MEM_SIZE,
                walk_addrs(self@.memory, 0) == r@.map_values(|e: DisEntry| e.addr as int)
                    + walk_addrs(self@.memory, pc as int),
                forall|j: int|
                    0 <= j < r@.len() ==> {
                        let e = #[trigger] r@[j];
                        &&& e.addr + spec_arity(e.opcode) < MEM_SIZE
                        &&& spec_from_opcode(self@.memory[e.addr as int]) == Some(e.opcode)
                        &&& e.args@ == self@.memory.subrange(
                            e.addr + 1,
                            e.addr + 1 + spec_arity(e.opcode),
                        )
                        &&& entry_words(e) == self@.memory.subrange(
                            e.addr as int,
                            e.addr + 1 + spec_arity(e.opcode),
                        )
                    },
            decreases MEM_SIZE - pc,
        {
            let op_val = self.memory[pc];
            match Instruction::from_opcode(op_val) {
                Some(opcode) => {
                    let ar = opcode.arity() as usize;
                    if pc + ar < MEM_SIZE {
                        let mut args: Vec<u16> = Vec::new();
                        let mut i: usize = 0;
                        while i < ar
                            invariant
                                self.wf(),
                                i <= ar,
                                pc + ar < MEM_SIZE,
                                args@ == self@.memory.subrange(
                                    pc + 1,
                                    pc + 1 + i,
                                ),
                            decreases ar - i,
                        {
                            args.push(self.memory[pc + 1 + i]);
                            assert(args@ =~= self@.memory.subrange(pc + 1, pc + 1 + i + 1));
                            i = i + 1;
                        }
                        let e = DisEntry { addr: pc as u16, opcode, args };
                        proof {
                            assert(entry_words(e) =~= self@.memory.subrange(
                                pc as int,
                                pc + 1 + ar,
                            ));
                        }
                        let ghost prev = r@;
                        r.push(e);
                        proof {
                            let f = |en: DisEntry| en.addr as int;
                            assert(r@.map_values(f) =~= prev.map_values(f).push(pc as int));
                            assert(prev.map_values(f) + (seq![pc as int] + walk_addrs(
                                self@.memory,
                                pc + ar + 1,
                            )) =~= r@.map_values(f) + walk_addrs(self@.memory, pc + ar + 1));
                        }
                        pc = pc + ar + 1;
                    } else {
                        pc = pc + 1;
                    }
                },
                None => {
                    pc = pc + 1;
                },
            }
        }
        proof {
            let f = |en: DisEntry| en.addr as int;
            assert(walk_addrs(self@.memory, MEM_SIZE as int) =~= Seq::<int>::empty());
            assert(r@.map_values(f) + Seq::<int>::empty() =~= r@.map_values(f));
        }
        r
    }

    /// Drive the input protocol (see `in_spec`): intercept administrative
    /// lines at the head of the buffer, then move one character into
    /// register `dst % 8`. Returns false when the buffer ran dry first; the
    /// caller then obtains a line of external input and retries.
    pub(crate) fn take_input(&mut self, dst: u16) -> (got: bool)
        requires
            old(self).wf(),
        ensures
            final(self).wf(),
            match in_spec(old(self)@, dst) {
                InOutcome::Blocked(s2) => !got && final(self)@ == s2,
                InOutcome::Consumed(s2) => got && final(self)@ == s2,
            },
    {
        loop
            invariant
                self.wf(),
                in_spec(old(self)@, dst) == in_spec(self@, dst),
            decreases self.input_buffer@.len(),
        {
            if self.input_buffer.len() == 0 {
                assert(in_spec(self@, dst) == InOutcome::Blocked(self@));
                return false;
            }
            let ghost pre = self@;
            let b0 = self.input_buffer[0];
            if b0 == 13 {
                self.input_buffer.remove(0);
                proof {
                    assert(self@.input =~= pre.input.drop_first());
                    assert(self@ =~= (State { input: pre.input.drop_first(), ..pre }));
                }
            } else if b0 == 10 {
                self.input_buffer.remove(0);
                let d = (dst % 8) as usize;
                self.registers[d] = 10;
                proof {
                    assert(self@.input =~= pre.input.drop_first());
                    assert(self@ =~= (State {
                        registers: pre.registers.update((dst % 8) as int, 10u16),
                        input: pre.input.drop_first(),
                        ..pre
                    }));
                }
                return true;
            } else {
                let k = find_line_end(&self.input_buffer);
                let line = byte_range(self.input_buffer.as_slice(), 0, k);
                let res = self.command(line.as_slice());
                if res == CmdOutcome::NotRecognized {
                    assert(self@ == pre);
                    self.input_buffer.remove(0);
                    let d = (dst % 8) as usize;
                    self.registers[d] = b0 as u16;
                    proof {
                        assert(self@.input =~= pre.input.drop_first());
                        assert(self@ =~= (State {
                            registers: pre.registers.update((dst % 8) as int, pre.input[0] as u16),
                            input: pre.input.drop_first(),
                            ..pre
                        }));
                    }
                    return true;
                } else {
                    if k < self.input_buffer.len() {
                        let rest = byte_range(
                            self.input_buffer.as_slice(),
                            k + 1,
                            self.input_buffer.len(),
                        );
                        self.input_buffer = rest;
                    } else {
                        self.input_buffer.clear();
                    }
                    proof {
                        let ks = line_end(pre.input);
                        let linespec = pre.input.subrange(0, ks as int);
                        assert(line@ == linespec);
                        assert(is_cmd(linespec));
                        let s1 = apply_cmd(pre, linespec);
                        let rest_s = if ks < pre.input.len() {
                            pre.input.subrange(ks + 1 as int, pre.input.len() as int)
                        } else {
                            Seq::<u8>::empty()
                        };
                        assert(self@ =~= (State { input: rest_s, ..s1 }));
                        assert(in_spec(pre, dst) == in_spec(self@, dst));
                    }
                }
            }
        }
    }
}

/// The arithmetic and bitwise opcodes always store 15-bit values: the
/// modulo-32768 reduction holds for all operand values, the
/// overflow-inducing ones included, and `mod` stays under its divisor.
pub proof fn lemma_arith_results_in_range(a: u16, b: u16)
    ensures
        add_val(a, b) < 32768,
        mult_val(a, b) < 32768,
        b != 0 ==> mod_val(a, b) < b,
        a < 32768 ==> (a & b) < 32768,
        a < 32768 && b < 32768 ==> (a | b) < 32768,
        not_val(a) < 32768,
{
    assert(a * b >= 0) by (nonlinear_arith);
    assert(a < 32768 ==> (a & b) < 32768) by (bit_vector);
    assert(a < 32768 && b < 32768 ==> (a | b) < 32768) by (bit_vector);
}

/// `jmp target` followed by one step leaves the program counter exactly at
/// the target — not biased by the instruction's own length.
pub proof fn lemma_jmp_exact(s: State, t: u16)
    requires
        s.wf(),
        s.pc + 1 < MEM_SIZE,
        s.memory[s.pc as int] == 6,
        resolve(s, s.memory[s.pc + 1]) == Some(t),
    ensures
        step_spec(s) == Ok::<(State, StepOutcome), Fault>(
            (State { pc: t, ..s }, StepOutcome::Ran),
        ),
{
    let args = s.memory.subrange(s.pc + 1, s.pc + 2);
    assert(args[0] == s.memory[s.pc + 1]);
}

/// `call target` then `ret`, with nothing else touching the stack in
/// between, restores the program counter to the instruction immediately
/// after the call and leaves the stack as it was.
pub proof fn lemma_call_then_ret(s: State, t: u16)
    requires
        s.wf(),
        s.pc + 2 < MEM_SIZE,
        s.memory[s.pc as int] == 17,
        resolve(s, s.memory[s.pc + 1]) == Some(t),
        s.memory[t as int] == 18,
    ensures
        step_spec(s) is Ok,
        ({
            let (s1, k1) = step_spec(s).unwrap();
            &&& k1 == StepOutcome::Ran
            &&& s1.pc == t
            &&& s1.stack == s.stack.push((s.pc + 2) as u16)
            &&& step_spec(s1) is Ok
            &&& ({
                let (s2, k2) = step_spec(s1).unwrap();
                &&& k2 == StepOutcome::Ran
                &&& s2.pc == s.pc + 2
                &&& s2.stack == s.stack
            })
        }),
{
    let args = s.memory.subrange(s.pc + 1, s.pc + 2);
    assert(args[0] == s.memory[s.pc + 1]);
    let (s1, k1) = step_spec(s).unwrap();
    assert(s1.stack.drop_last() =~= s.stack);
}

/// `push x` then `pop r`: register `r` holds the value `x` resolved to,
/// and the stack is exactly what it was before the push.
pub proof fn lemma_push_then_pop(s: State, x: u16, dreg: u16)
    requires
        s.wf(),
        s.pc + 3 < MEM_SIZE,
        s.memory[s.pc as int] == 2,
        s.memory[s.pc + 1] == x,
        resolve(s, x) is Some,
        s.memory[s.pc + 2] == 3,
        s.memory[s.pc + 3] == dreg,
    ensures
        step_spec(s) is Ok,
        ({
            let (s1, k1) = step_spec(s).unwrap();
            &&& k1 == StepOutcome::Ran
            &&& step_spec(s1) is Ok
            &&& ({
                let (s2, k2) = step_spec(s1).unwrap();
                &&& k2 == StepOutcome::Ran
                &&& s2.registers[(dreg % 8) as int] == resolve(s, x).unwrap()
                &&& s2.stack == s.stack
            })
        }),
{
    let args = s.memory.subrange(s.pc + 1, s.pc + 2);
    assert(args[0] == s.memory[s.pc + 1]);
    let (s1, k1) = step_spec(s).unwrap();
    let args1 = s1.memory.subrange(s1.pc + 1, s1.pc + 2);
    assert(args1[0] == s1.memory[s1.pc + 1]);
    assert(s1.stack.last() == resolve(s, x).unwrap());
    assert(s1.stack.drop_last() =~= s.stack);
}

/// `pop` on an empty stack is fatal.
pub proof fn lemma_pop_empty_faults(s: State)
    requires
        s.wf(),
        s.pc + 1 < MEM_SIZE,
        s.memory[s.pc as int] == 3,
        s.stack.len() == 0,
    ensures
        step_spec(s) == Err::<(State, StepOutcome), Fault>(Fault::StackUnderflow),
{
}

/// `ret` on an empty stack halts without error: the running flag is
/// cleared and no fault is reported.
pub proof fn lemma_ret_empty_halts(s: State)
    requires
        s.wf(),
        s.pc < MEM_SIZE,
        s.memory[s.pc as int] == 18,
        s.stack.len() == 0,
    ensures
        step_spec(s) is Ok,
        ({
            let (s2, k) = step_spec(s).unwrap();
            &&& k == StepOutcome::Ran
            &&& !s2.running
            &&& s2.stack == s.stack
        }),
{
}

} // verus!
