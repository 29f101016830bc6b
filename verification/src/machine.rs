//! The interpreter: a stack machine that fetches, decodes and executes
//! instructions against an operand/frame byte stack, a frame pointer and a
//! call-linkage stack. Every transition is given by `spec_step`, one total
//! specification function, and the executable `step` is proved to follow it.
//!
//! Design choices the binary format leaves open, fixed here: the call
//! linkage lives on a dedicated frame stack (return address, caller frame
//! pointer, caller stack height); a lexical level walks that chain, `level`
//! frames up from the current one; local, main and global offsets and the
//! declared frame size are byte counts; the execution stack is bounded by a
//! fixed limit, and exceeding it is fatal. Of the opcodes the format lists
//! without fixing their behaviour, `Put` emits the pending string literal
//! (and is a no-op without one), `EndOfCode` halts normally, and `Get` is
//! reserved as a no-op.

use vstd::prelude::*;
use crate::error::VmError;
use crate::opcode::OpCode;
use crate::parse::{parse_i64, parse_i64_spec};
use crate::render::{dec_chars, dec_string};
use crate::scan::{entry_ok, nul_run, scan_program, ScanResult};
use crate::utf8::utf8_decode;
use crate::vm::{arch_valid, header_count, imm_at, PL0VM};
use crate::word::{
    le_bytes, lemma_le_bytes_len, lemma_trunc_div, lemma_wrap_val, trunc_div, unsigned_val,
    word_from_bytes, word_of_bytes, wrap_val, Data,
};

verus! {

/// The execution stack never grows beyond this many bytes.
pub const STACK_LIMIT: usize = 0x0100_0000;

/// Call linkage recorded when a procedure is entered: where to resume, the
/// caller's frame pointer, and the stack height to restore on return.
#[derive(Clone, Copy, Debug, PartialEq, Eq, Structural)]
pub struct Frame {
    pub ret_pc: usize,
    pub saved_fp: usize,
    pub saved_len: usize,
}

impl Frame {
    pub open spec fn wf(self, plen: int) -> bool {
        &&& self.ret_pc <= plen
        &&& self.saved_fp <= STACK_LIMIT
        &&& self.saved_len <= STACK_LIMIT
    }
}

/// The interpreter's run state: running, halted normally, or halted on a
/// fatal error.
#[derive(Clone, Copy, Debug, PartialEq, Eq, Structural)]
pub enum Status {
    Running,
    Done,
    Failed(VmError),
}

/// What one transition asks of the outside world: nothing, print a line,
/// wait for an input line, stop, or abort with a fatal error.
pub enum Effect {
    Quiet,
    Output(String),
    AwaitInput,
    Stop,
    Abort(VmError),
}

/// The mathematical image of an `Effect`.
pub ghost enum EffectView {
    Quiet,
    Output(Seq<char>),
    AwaitInput,
    Stop,
    Abort(VmError),
}

impl View for Effect {
    type V = EffectView;

    open spec fn view(&self) -> EffectView {
        match self {
            Effect::Quiet => EffectView::Quiet,
            Effect::Output(s) => EffectView::Output(s@),
            Effect::AwaitInput => EffectView::AwaitInput,
            Effect::Stop => EffectView::Stop,
            Effect::Abort(e) => EffectView::Abort(*e),
        }
    }
}

/// The mathematical image of the whole machine state.
pub ghost struct MState {
    pub program: Seq<u8>,
    pub bits: Data,
    pub table: Seq<usize>,
    pub consts: Seq<Data>,
    pub pc: int,
    pub fp: int,
    pub stack: Seq<u8>,
    pub frames: Seq<Frame>,
    pub pending: Option<Seq<char>>,
    pub awaiting: Option<int>,
    pub status: Status,
}

impl MState {
    /// Structural soundness that every reachable machine state keeps.
    pub open spec fn wf(self) -> bool {
        &&& arch_valid(self.bits.width() as int)
        &&& self.program.len() >= 4
        &&& forall|j: int|
            0 <= j < self.table.len() ==> entry_ok(self.program, #[trigger] self.table[j] as int, j)
        &&& forall|j: int|
            0 <= j < self.consts.len() ==> (#[trigger] self.consts[j]).width() == self.bits.width()
        &&& 0 <= self.pc <= self.program.len()
        &&& 0 <= self.fp <= STACK_LIMIT
        &&& self.stack.len() <= STACK_LIMIT
        &&& forall|i: int|
            0 <= i < self.frames.len() ==> (#[trigger] self.frames[i]).wf(self.program.len() as int)
        &&& match self.awaiting {
            Some(a) => 0 <= a && a + self.bits.width() <= STACK_LIMIT,
            None => true,
        }
    }
}

/// A running machine.
pub struct Machine {
    pub program: Vec<u8>,
    pub bits: Data,
    pub table: Vec<usize>,
    pub consts: Vec<Data>,
    pub pc: usize,
    pub fp: usize,
    pub stack: Vec<u8>,
    pub frames: Vec<Frame>,
    pub pending_text: Option<String>,
    pub awaiting_input: Option<usize>,
    pub status: Status,
}

impl View for Machine {
    type V = MState;

    open spec fn view(&self) -> MState {
        MState {
            program: self.program@,
            bits: self.bits,
            table: self.table@,
            consts: self.consts@,
            pc: self.pc as int,
            fp: self.fp as int,
            stack: self.stack@,
            frames: self.frames@,
            pending: match &self.pending_text {
                Some(s) => Some(s@),
                None => None,
            },
            awaiting: match self.awaiting_input {
                Some(a) => Some(a as int),
                None => None,
            },
            status: self.status,
        }
    }
}

/// The sequence a word's push leaves on the stack.
pub open spec fn push_word_spec(s: Seq<u8>, w: nat, v: int) -> Seq<u8> {
    s + le_bytes(w, unsigned_val(w, v))
}

/// The value of the word that ends at the top of the stack.
pub open spec fn top_word_spec(s: Seq<u8>, w: nat) -> int {
    word_of_bytes(w, s.subrange(s.len() - w, s.len() as int))
}

/// The value of the word at byte address `a`.
pub open spec fn word_at_spec(s: Seq<u8>, w: nat, a: int) -> int {
    word_of_bytes(w, s.subrange(a, a + w))
}

/// The stack extended with zero bytes to length `n` (unchanged when it is
/// already that long).
pub open spec fn grown_spec(s: Seq<u8>, n: int) -> Seq<u8> {
    if s.len() >= n {
        s
    } else {
        s + Seq::new((n - s.len()) as nat, |i: int| 0u8)
    }
}

/// The stack after the word `v` is stored at byte address `a`, growing the
/// stack with zeros first when it is too short.
pub open spec fn store_word_spec(s: Seq<u8>, w: nat, a: int, v: int) -> Seq<u8> {
    let g = grown_spec(s, a + w);
    Seq::new(
        g.len(),
        |i: int|
            if a <= i < a + w {
                le_bytes(w, unsigned_val(w, v))[i - a]
            } else {
                g[i]
            },
    )
}

/// A failing transition: the state is kept, only the status records the
/// fatal error, and the effect reports it.
pub open spec fn fail_step(pre: MState, e: VmError) -> (MState, EffectView) {
    (MState { status: Status::Failed(e), ..pre }, EffectView::Abort(e))
}

/// The comparison each comparison opcode computes.
pub open spec fn compare_spec(op: OpCode, a: int, b: int) -> bool {
    match op {
        OpCode::CompareEq => a == b,
        OpCode::CompareNotEq => a != b,
        OpCode::CompareLT => a < b,
        OpCode::CompareGT => a > b,
        OpCode::CompareLTEq => a <= b,
        OpCode::CompareGTEq => a >= b,
        _ => false,
    }
}

/// The full-precision result of a binary arithmetic opcode, before the
/// truncation back to the configured width. Division is only consulted for
/// a non-zero divisor. The operand popped second is the left operand.
pub open spec fn arith_spec(op: OpCode, a: int, b: int) -> int {
    match op {
        OpCode::OpAdd => a + b,
        OpCode::OpSubtract => a - b,
        OpCode::OpMultiply => a * b,
        OpCode::OpDivide => trunc_div(a, b),
        OpCode::OpAddAddr => a + b,
        _ => 0,
    }
}

/// Read the word at stack address `a` and push its value: the shared tail
/// of every push-value addressing mode.
pub open spec fn spec_push_value_at(pre: MState, a: int, next_pc: int) -> (MState, EffectView) {
    let w = pre.bits.width();
    let s = pre.stack;
    if !(0 <= a && a + w <= s.len()) {
        fail_step(pre, VmError::BadAddress)
    } else if s.len() + w > STACK_LIMIT {
        fail_step(pre, VmError::StackLimit)
    } else {
        (
            MState { pc: next_pc, stack: push_word_spec(s, w, word_at_spec(s, w, a)), ..pre },
            EffectView::Quiet,
        )
    }
}

/// Push a resolved stack address itself: the shared tail of every
/// push-address addressing mode.
pub open spec fn spec_push_address(pre: MState, a: int, next_pc: int) -> (MState, EffectView) {
    let w = pre.bits.width();
    let s = pre.stack;
    if !(0 <= a && a + w <= STACK_LIMIT) {
        fail_step(pre, VmError::BadAddress)
    } else if s.len() + w > STACK_LIMIT {
        fail_step(pre, VmError::StackLimit)
    } else {
        (
            MState { pc: next_pc, stack: push_word_spec(s, w, wrap_val(w, a)), ..pre },
            EffectView::Quiet,
        )
    }
}

/// One transition of the machine from a running, non-waiting state: fetch
/// the opcode at the program counter, decode its immediates, execute its
/// semantic effect, and advance past the instruction.
pub open spec fn spec_step(pre: MState) -> (MState, EffectView) {
    let p = pre.program;
    let w = pre.bits.width();
    let n = p.len() as int;
    let s = pre.stack;
    if !(0 <= pre.pc < n) {
        fail_step(pre, VmError::ScanPastEnd)
    } else {
        match OpCode::spec_from_byte(p[pre.pc]) {
            None => fail_step(pre, VmError::UnknownOpcode { offset: pre.pc as usize }),
            Some(op) => match op {
                OpCode::EndOfCode => (MState { status: Status::Done, ..pre }, EffectView::Stop),
                OpCode::EntryProc => {
                    if pre.pc + 7 <= n {
                        (MState { pc: pre.pc + 7, ..pre }, EffectView::Quiet)
                    } else {
                        fail_step(pre, VmError::ScanPastEnd)
                    }
                },
                OpCode::ReturnProc => {
                    if pre.frames.len() == 0 {
                        (MState { status: Status::Done, ..pre }, EffectView::Stop)
                    } else {
                        let f = pre.frames.last();
                        let s2 = if f.saved_len <= s.len() {
                            s.take(f.saved_len as int)
                        } else {
                            s
                        };
                        (
                            MState {
                                pc: f.ret_pc as int,
                                fp: f.saved_fp as int,
                                stack: s2,
                                frames: pre.frames.drop_last(),
                                ..pre
                            },
                            EffectView::Quiet,
                        )
                    }
                },
                OpCode::PushConstant => {
                    if pre.pc + 3 > n {
                        fail_step(pre, VmError::ScanPastEnd)
                    } else {
                        let ix = imm_at(p, pre.pc + 1);
                        if !(0 <= ix < pre.consts.len()) {
                            fail_step(pre, VmError::BadConstantIndex { offset: pre.pc as usize })
                        } else if s.len() + w > STACK_LIMIT {
                            fail_step(pre, VmError::StackLimit)
                        } else {
                            (
                                MState {
                                    pc: pre.pc + 3,
                                    stack: push_word_spec(s, w, pre.consts[ix].value()),
                                    ..pre
                                },
                                EffectView::Quiet,
                            )
                        }
                    }
                },
                OpCode::PushValueLocalVar | OpCode::PushValueMainVar => {
                    if pre.pc + 3 > n {
                        fail_step(pre, VmError::ScanPastEnd)
                    } else {
                        let base: int = if op is PushValueLocalVar {
                            pre.fp
                        } else {
                            0
                        };
                        spec_push_value_at(pre, base + imm_at(p, pre.pc + 1), pre.pc + 3)
                    }
                },
                OpCode::PushAddressLocalVar | OpCode::PushAddressMainVar => {
                    if pre.pc + 3 > n {
                        fail_step(pre, VmError::ScanPastEnd)
                    } else {
                        let base: int = if op is PushAddressLocalVar {
                            pre.fp
                        } else {
                            0
                        };
                        spec_push_address(pre, base + imm_at(p, pre.pc + 1), pre.pc + 3)
                    }
                },
                OpCode::PushValueGlobalVar | OpCode::PushAddressGlobalVar => {
                    if pre.pc + 5 > n {
                        fail_step(pre, VmError::ScanPastEnd)
                    } else {
                        let level = imm_at(p, pre.pc + 1);
                        let off = imm_at(p, pre.pc + 3);
                        if !(level == 0 || 1 <= level <= pre.frames.len()) {
                            fail_step(pre, VmError::BadLexicalLevel)
                        } else {
                            let base: int = if level == 0 {
                                pre.fp
                            } else {
                                pre.frames[pre.frames.len() - level].saved_fp as int
                            };
                            if op is PushValueGlobalVar {
                                spec_push_value_at(pre, base + off, pre.pc + 5)
                            } else {
                                spec_push_address(pre, base + off, pre.pc + 5)
                            }
                        }
                    }
                },
                OpCode::StoreValue => {
                    if s.len() < 2 * w {
                        fail_step(pre, VmError::StackUnderflow)
                    } else {
                        let v = top_word_spec(s, w);
                        let s1 = s.take(s.len() - w);
                        let a = top_word_spec(s1, w);
                        let s2 = s1.take(s1.len() - w);
                        if !(0 <= a && a + w <= STACK_LIMIT) {
                            fail_step(pre, VmError::BadAddress)
                        } else {
                            (
                                MState { pc: pre.pc + 1, stack: store_word_spec(s2, w, a, v), ..pre },
                                EffectView::Quiet,
                            )
                        }
                    }
                },
                OpCode::OutputValue => {
                    if s.len() < w {
                        fail_step(pre, VmError::StackUnderflow)
                    } else {
                        let v = top_word_spec(s, w);
                        (
                            MState { pc: pre.pc + 1, stack: s.take(s.len() - w), ..pre },
                            EffectView::Output(dec_chars(v)),
                        )
                    }
                },
                OpCode::InputToAddr => {
                    if s.len() < w {
                        fail_step(pre, VmError::StackUnderflow)
                    } else {
                        let a = top_word_spec(s, w);
                        if !(0 <= a && a + w <= STACK_LIMIT) {
                            fail_step(pre, VmError::BadAddress)
                        } else {
                            (
                                MState {
                                    pc: pre.pc + 1,
                                    stack: s.take(s.len() - w),
                                    awaiting: Some(a),
                                    ..pre
                                },
                                EffectView::AwaitInput,
                            )
                        }
                    }
                },
                OpCode::Minusify => {
                    if s.len() < w {
                        fail_step(pre, VmError::StackUnderflow)
                    } else {
                        let v = top_word_spec(s, w);
                        let s1 = s.take(s.len() - w);
                        (
                            MState {
                                pc: pre.pc + 1,
                                stack: push_word_spec(s1, w, wrap_val(w, -v)),
                                ..pre
                            },
                            EffectView::Quiet,
                        )
                    }
                },
                OpCode::IsOdd => {
                    if s.len() < w {
                        fail_step(pre, VmError::StackUnderflow)
                    } else {
                        let v = top_word_spec(s, w);
                        let s1 = s.take(s.len() - w);
                        let r: int = if v % 2 != 0 {
                            1
                        } else {
                            0
                        };
                        (
                            MState { pc: pre.pc + 1, stack: push_word_spec(s1, w, r), ..pre },
                            EffectView::Quiet,
                        )
                    }
                },
                OpCode::OpAdd | OpCode::OpSubtract | OpCode::OpMultiply | OpCode::OpDivide
                    | OpCode::OpAddAddr => {
                    if s.len() < 2 * w {
                        fail_step(pre, VmError::StackUnderflow)
                    } else {
                        let b = top_word_spec(s, w);
                        let s1 = s.take(s.len() - w);
                        let a = top_word_spec(s1, w);
                        let s2 = s1.take(s1.len() - w);
                        if op is OpDivide && b == 0 {
                            fail_step(pre, VmError::DivisionByZero)
                        } else {
                            (
                                MState {
                                    pc: pre.pc + 1,
                                    stack: push_word_spec(s2, w, wrap_val(w, arith_spec(op, a, b))),
                                    ..pre
                                },
                                EffectView::Quiet,
                            )
                        }
                    }
                },
                OpCode::CompareEq | OpCode::CompareNotEq | OpCode::CompareLT | OpCode::CompareGT
                    | OpCode::CompareLTEq | OpCode::CompareGTEq => {
                    if s.len() < 2 * w {
                        fail_step(pre, VmError::StackUnderflow)
                    } else {
                        let b = top_word_spec(s, w);
                        let s1 = s.take(s.len() - w);
                        let a = top_word_spec(s1, w);
                        let s2 = s1.take(s1.len() - w);
                        let r: int = if compare_spec(op, a, b) {
                            1
                        } else {
                            0
                        };
                        (
                            MState { pc: pre.pc + 1, stack: push_word_spec(s2, w, r), ..pre },
                            EffectView::Quiet,
                        )
                    }
                },
                OpCode::CallProc => {
                    if pre.pc + 3 > n {
                        fail_step(pre, VmError::ScanPastEnd)
                    } else {
                        let id = imm_at(p, pre.pc + 1);
                        if !(0 <= id < pre.table.len()) {
                            fail_step(pre, VmError::BadProcedureId { offset: pre.pc as usize })
                        } else {
                            let entry = pre.table[id] as int;
                            let fsize = imm_at(p, entry + 5);
                            if fsize < 0 {
                                fail_step(pre, VmError::BadAddress)
                            } else if s.len() + fsize > STACK_LIMIT {
                                fail_step(pre, VmError::StackLimit)
                            } else {
                                (
                                    MState {
                                        pc: entry,
                                        fp: s.len() as int,
                                        stack: grown_spec(s, s.len() + fsize),
                                        frames: pre.frames.push(
                                            (Frame {
                                                ret_pc: (pre.pc + 3) as usize,
                                                saved_fp: pre.fp as usize,
                                                saved_len: s.len() as usize,
                                            }),
                                        ),
                                        ..pre
                                    },
                                    EffectView::Quiet,
                                )
                            }
                        }
                    }
                },
                OpCode::Jump => {
                    if pre.pc + 3 > n {
                        fail_step(pre, VmError::ScanPastEnd)
                    } else {
                        let target = pre.pc + 3 + imm_at(p, pre.pc + 1);
                        if 0 <= target <= n {
                            (MState { pc: target, ..pre }, EffectView::Quiet)
                        } else {
                            fail_step(pre, VmError::BadJumpTarget)
                        }
                    }
                },
                OpCode::JumpIfFalse => {
                    if pre.pc + 3 > n {
                        fail_step(pre, VmError::ScanPastEnd)
                    } else if s.len() < w {
                        fail_step(pre, VmError::StackUnderflow)
                    } else {
                        let v = top_word_spec(s, w);
                        let s1 = s.take(s.len() - w);
                        if v == 0 {
                            let target = pre.pc + 3 + imm_at(p, pre.pc + 1);
                            if 0 <= target <= n {
                                (MState { pc: target, stack: s1, ..pre }, EffectView::Quiet)
                            } else {
                                fail_step(pre, VmError::BadJumpTarget)
                            }
                        } else {
                            (MState { pc: pre.pc + 3, stack: s1, ..pre }, EffectView::Quiet)
                        }
                    }
                },
                OpCode::PutString => {
                    match nul_run(p, pre.pc + 1) {
                        None => fail_step(pre, VmError::ScanPastEnd),
                        Some(k) => {
                            let payload = p.subrange(pre.pc + 1, pre.pc + 1 + k);
                            match utf8_decode(payload) {
                                None => fail_step(
                                    pre,
                                    VmError::InvalidLiteral { offset: pre.pc as usize },
                                ),
                                Some(t) => (
                                    MState { pc: pre.pc + 2 + k, pending: Some(t), ..pre },
                                    EffectView::Quiet,
                                ),
                            }
                        },
                    }
                },
                OpCode::Put => {
                    match pre.pending {
                        Some(t) => (
                            MState { pc: pre.pc + 1, pending: None, ..pre },
                            EffectView::Output(t),
                        ),
                        None => (MState { pc: pre.pc + 1, ..pre }, EffectView::Quiet),
                    }
                },
                OpCode::Get => (MState { pc: pre.pc + 1, ..pre }, EffectView::Quiet),
                OpCode::Pop => {
                    if s.len() < w {
                        fail_step(pre, VmError::StackUnderflow)
                    } else {
                        (
                            MState { pc: pre.pc + 1, stack: s.take(s.len() - w), ..pre },
                            EffectView::Quiet,
                        )
                    }
                },
                OpCode::Swap => {
                    if s.len() < 2 * w {
                        fail_step(pre, VmError::StackUnderflow)
                    } else {
                        let b = top_word_spec(s, w);
                        let s1 = s.take(s.len() - w);
                        let a = top_word_spec(s1, w);
                        let s2 = s1.take(s1.len() - w);
                        (
                            MState {
                                pc: pre.pc + 1,
                                stack: push_word_spec(push_word_spec(s2, w, b), w, a),
                                ..pre
                            },
                            EffectView::Quiet,
                        )
                    }
                },
            },
        }
    }
}

/// One delivery of an input line to a machine that is waiting on the read
/// instruction: parse the line as a signed integer, truncate it to the
/// configured width, and store it at the address the instruction resolved.
/// A line that is not a valid integer is fatal.
pub open spec fn spec_supply(pre: MState, line: Seq<u8>) -> (MState, EffectView) {
    let w = pre.bits.width();
    match pre.awaiting {
        None => fail_step(pre, VmError::InputNotNumeric),
        Some(a) => match parse_i64_spec(line) {
            None => fail_step(pre, VmError::InputNotNumeric),
            Some(v) => (
                MState {
                    stack: store_word_spec(pre.stack, w, a, wrap_val(w, v)),
                    awaiting: None,
                    ..pre
                },
                EffectView::Quiet,
            ),
        },
    }
}

/// Push one word onto the execution stack.
fn push_word(stack: &mut Vec<u8>, bits: &Data, d: Data)
    requires
        d.width() == bits.width(),
        old(stack)@.len() + bits.width() <= STACK_LIMIT,
    ensures
        final(stack)@ == push_word_spec(old(stack)@, bits.width(), d.value()),
        final(stack)@.len() == old(stack)@.len() + bits.width(),
{
    proof {
        lemma_le_bytes_len(bits.width(), unsigned_val(bits.width(), d.value()));
    }
    let mut bs = d.to_bytes();
    stack.append(&mut bs);
}

/// Pop one word off the execution stack; `None` on underflow, with the
/// stack unchanged.
fn pop_word(stack: &mut Vec<u8>, bits: &Data) -> (r: Option<Data>)
    ensures
        match r {
            Some(d) => {
                &&& old(stack)@.len() >= bits.width()
                &&& d.width() == bits.width()
                &&& d.value() == top_word_spec(old(stack)@, bits.width())
                &&& final(stack)@ == old(stack)@.take(old(stack)@.len() - bits.width())
            },
            None => old(stack)@.len() < bits.width() && final(stack)@ == old(stack)@,
        },
{
    let w = bits.data_size();
    let n = stack.len();
    if n < w {
        return None;
    }
    let d = word_from_bytes(stack, n - w, bits);
    stack.truncate(n - w);
    proof {
        assert(stack@ =~= old(stack)@.take(old(stack)@.len() - bits.width()));
    }
    Some(d)
}

/// Extend the stack with zero bytes up to `target` bytes long.
fn grow_to(stack: &mut Vec<u8>, target: usize)
    requires
        target <= STACK_LIMIT,
    ensures
        final(stack)@ == grown_spec(old(stack)@, target as int),
{
    while stack.len() < target
        invariant
            stack@.len() >= old(stack)@.len(),
            stack@.len() <= old(stack)@.len() || stack@.len() <= target,
            stack@ == grown_spec(old(stack)@, stack@.len() as int),
        decreases target - stack@.len(),
    {
        stack.push(0u8);
        proof {
            assert(stack@ =~= grown_spec(old(stack)@, stack@.len() as int));
        }
    }
    proof {
        assert(stack@ =~= grown_spec(old(stack)@, target as int));
    }
}

/// Store one word at byte address `addr`, growing the stack with zeros
/// first when it does not reach `addr + width` yet.
fn store_word(stack: &mut Vec<u8>, bits: &Data, addr: usize, d: Data)
    requires
        d.width() == bits.width(),
        addr + bits.width() <= STACK_LIMIT,
        old(stack)@.len() <= STACK_LIMIT,
    ensures
        final(stack)@ == store_word_spec(old(stack)@, bits.width(), addr as int, d.value()),
        final(stack)@.len() <= STACK_LIMIT,
{
    let w = bits.data_size();
    if stack.len() < addr + w {
        grow_to(stack, addr + w);
    }
    let ghost g = stack@;
    proof {
        assert(g == grown_spec(old(stack)@, addr + bits.width()));
        lemma_le_bytes_len(bits.width(), unsigned_val(bits.width(), d.value()));
    }
    let bs = d.to_bytes();
    let mut k: usize = 0;
    while k < w
        invariant
            k <= w,
            w == bits.width(),
            addr + w <= stack@.len(),
            stack@.len() <= STACK_LIMIT,
            stack@.len() == g.len(),
            bs@ == d.spec_bytes(),
            bs@.len() == w,
            d.width() == w,
            forall|i: int| 0 <= i < stack@.len() && !(addr <= i < addr + k) ==> stack@[i] == g[i],
            forall|i: int| addr <= i < addr + k ==> stack@[i] == bs@[i - addr],
        decreases w - k,
    {
        stack[addr + k] = bs[k];
        k = k + 1;
    }
    proof {
        assert(stack@ =~= store_word_spec(old(stack)@, bits.width(), addr as int, d.value()));
    }
}

/// Read the word at byte address `addr` of the stack.
fn read_stack_word(stack: &Vec<u8>, bits: &Data, addr: usize) -> (r: Data)
    requires
        addr + bits.width() <= stack@.len(),
    ensures
        r.width() == bits.width(),
        r.value() == word_at_spec(stack@, bits.width(), addr as int),
{
    word_from_bytes(stack, addr, bits)
}

/// Find the null terminator at or after `start`.
pub(crate) fn find_nul(buf: &Vec<u8>, start: usize) -> (r: Option<usize>)
    requires
        start <= buf@.len(),
    ensures
        match r {
            Some(j) => start <= j < buf@.len() && nul_run(buf@, start as int) == Some(
                (j - start) as nat,
            ),
            None => nul_run(buf@, start as int) is None,
        },
{
    let n = buf.len();
    let mut j: usize = start;
    while j < n
        invariant
            start <= j <= n,
            n == buf@.len(),
            forall|m: int| start <= m < j ==> buf@[m] != 0,
        decreases n - j,
    {
        if buf[j] == 0 {
            proof {
                crate::scan::lemma_nul_run_found(buf@, start as int, j as int);
            }
            return Some(j);
        }
        j = j + 1;
    }
    proof {
        crate::scan::lemma_nul_run_none(buf@, start as int);
    }
    None
}

impl Machine {
    /// Record a fatal error and stop.
    fn fail(&mut self, e: VmError) -> (r: Effect)
        ensures
            (final(self)@, r@) == fail_step(old(self)@, e),
    {
        self.status = Status::Failed(e);
        Effect::Abort(e)
    }

    /// The shared tail of the push-value addressing modes.
    fn push_value_at(&mut self, a: i64, next_pc: usize) -> (r: Effect)
        requires
            old(self)@.wf(),
            next_pc <= old(self)@.program.len(),
        ensures
            (final(self)@, r@) == spec_push_value_at(old(self)@, a as int, next_pc as int),
            final(self)@.wf(),
    {
        let w = self.bits.data_size();
        let len = self.stack.len();
        if a < 0 || len < w || a > (len - w) as i64 {
            return self.fail(VmError::BadAddress);
        }
        if STACK_LIMIT - len < w {
            return self.fail(VmError::StackLimit);
        }
        let d = read_stack_word(&self.stack, &self.bits, a as usize);
        push_word(&mut self.stack, &self.bits, d);
        self.pc = next_pc;
        Effect::Quiet
    }

    /// The shared tail of the push-address addressing modes.
    fn push_address(&mut self, a: i64, next_pc: usize) -> (r: Effect)
        requires
            old(self)@.wf(),
            next_pc <= old(self)@.program.len(),
        ensures
            (final(self)@, r@) == spec_push_address(old(self)@, a as int, next_pc as int),
            final(self)@.wf(),
    {
        let w = self.bits.data_size();
        if a < 0 || a > (STACK_LIMIT - w) as i64 {
            return self.fail(VmError::BadAddress);
        }
        if STACK_LIMIT - self.stack.len() < w {
            return self.fail(VmError::StackLimit);
        }
        let d = Data::from_wrapped(&self.bits, a as i128);
        push_word(&mut self.stack, &self.bits, d);
        self.pc = next_pc;
        Effect::Quiet
    }

    /// One fetch-decode-execute transition. The caller reacts to the
    /// effect: printing a line, supplying input, or stopping.
    pub fn step(&mut self) -> (e: Effect)
        requires
            old(self)@.wf(),
            old(self)@.status is Running,
            old(self)@.awaiting is None,
        ensures
            (final(self)@, e@) == spec_step(old(self)@),
            final(self)@.wf(),
    {
        let ghost pre = self@;
        let n = self.program.len();
        if self.pc >= n {
            return self.fail(VmError::ScanPastEnd);
        }
        let byte = self.program[self.pc];
        let op = match OpCode::from_byte(byte) {
            Some(op) => op,
            None => {
                return self.fail(VmError::UnknownOpcode { offset: self.pc });
            },
        };
        match op {
            OpCode::EndOfCode => {
                self.status = Status::Done;
                Effect::Stop
            },
            OpCode::EntryProc => {
                if n - self.pc < 7 {
                    return self.fail(VmError::ScanPastEnd);
                }
                self.pc = self.pc + 7;
                Effect::Quiet
            },
            OpCode::ReturnProc => self.step_return(),
            OpCode::PushConstant => self.step_push_constant(),
            OpCode::PushValueLocalVar | OpCode::PushValueMainVar => self.step_push_value(op),
            OpCode::PushAddressLocalVar | OpCode::PushAddressMainVar => self.step_push_addr(op),
            OpCode::PushValueGlobalVar | OpCode::PushAddressGlobalVar => self.step_push_global(op),
            OpCode::StoreValue => self.step_store(),
            OpCode::OutputValue => self.step_output(),
            OpCode::InputToAddr => self.step_input(),
            OpCode::Minusify => self.step_minusify(),
            OpCode::IsOdd => self.step_isodd(),
            OpCode::OpAdd | OpCode::OpSubtract | OpCode::OpMultiply | OpCode::OpDivide
                | OpCode::OpAddAddr => self.step_arith(op),
            OpCode::CompareEq | OpCode::CompareNotEq | OpCode::CompareLT | OpCode::CompareGT
                | OpCode::CompareLTEq | OpCode::CompareGTEq => self.step_compare(op),
            OpCode::CallProc => self.step_call(),
            OpCode::Jump => self.step_jump(),
            OpCode::JumpIfFalse => self.step_jump_if_false(),
            OpCode::PutString => self.step_put_string(),
            OpCode::Put => self.step_put(),
            OpCode::Get => {
                self.pc = self.pc + 1;
                Effect::Quiet
            },
            OpCode::Pop => self.step_pop(),
            OpCode::Swap => self.step_swap(),
        }
    }

    fn step_return(&mut self) -> (e: Effect)
        requires
            old(self)@.wf(),
            old(self)@.status is Running,
            old(self)@.awaiting is None,
            0 <= old(self)@.pc < old(self)@.program.len(),
            OpCode::spec_from_byte(old(self)@.program[old(self)@.pc]) == Some(OpCode::ReturnProc),
        ensures
            (final(self)@, e@) == spec_step(old(self)@),
            final(self)@.wf(),
    {
        let ghost pre = self@;
        let n = self.program.len();
        let w = self.bits.data_size();
        proof {
            crate::word::lemma_byte_modulus();
        }

                match self.frames.pop() {
                    None => {
                        self.status = Status::Done;
                        Effect::Stop
                    },
                    Some(f) => {
                        proof {
                            assert(pre.frames.last().wf(pre.program.len() as int));
                        }
                        self.pc = f.ret_pc;
                        self.fp = f.saved_fp;
                        self.stack.truncate(f.saved_len);
                        proof {
                            if f.saved_len <= pre.stack.len() {
                                assert(self.stack@ =~= pre.stack.take(f.saved_len as int));
                            }
                        }
                        Effect::Quiet
                    },
                }
            
    }

    fn step_push_constant(&mut self) -> (e: Effect)
        requires
            old(self)@.wf(),
            old(self)@.status is Running,
            old(self)@.awaiting is None,
            0 <= old(self)@.pc < old(self)@.program.len(),
            OpCode::spec_from_byte(old(self)@.program[old(self)@.pc]) == Some(OpCode::PushConstant),
        ensures
            (final(self)@, e@) == spec_step(old(self)@),
            final(self)@.wf(),
    {
        let ghost pre = self@;
        let n = self.program.len();
        let w = self.bits.data_size();
        proof {
            crate::word::lemma_byte_modulus();
        }

                if n - self.pc < 3 {
                    return self.fail(VmError::ScanPastEnd);
                }
                let ix = crate::vm::read_arg_in(&self.program, self.pc + 1);
                if ix < 0 || ix as usize >= self.consts.len() {
                    return self.fail(VmError::BadConstantIndex { offset: self.pc });
                }
                if STACK_LIMIT - self.stack.len() < w {
                    return self.fail(VmError::StackLimit);
                }
                let d = self.consts[ix as usize];
                push_word(&mut self.stack, &self.bits, d);
                self.pc = self.pc + 3;
                Effect::Quiet
            
    }

    fn step_push_value(&mut self, op: OpCode) -> (e: Effect)
        requires
            old(self)@.wf(),
            old(self)@.status is Running,
            old(self)@.awaiting is None,
            0 <= old(self)@.pc < old(self)@.program.len(),
            OpCode::spec_from_byte(old(self)@.program[old(self)@.pc]) == Some(op),
            (op is PushValueLocalVar || op is PushValueMainVar),
        ensures
            (final(self)@, e@) == spec_step(old(self)@),
            final(self)@.wf(),
    {
        let ghost pre = self@;
        let n = self.program.len();
        let w = self.bits.data_size();
        proof {
            crate::word::lemma_byte_modulus();
        }

                if n - self.pc < 3 {
                    return self.fail(VmError::ScanPastEnd);
                }
                let off = crate::vm::read_arg_in(&self.program, self.pc + 1);
                let local = match op {
                    OpCode::PushValueLocalVar => true,
                    _ => false,
                };
                let base: usize = if local {
                    self.fp
                } else {
                    0
                };
                let a: i64 = base as i64 + off as i64;
                self.push_value_at(a, self.pc + 3)
            
    }

    fn step_push_addr(&mut self, op: OpCode) -> (e: Effect)
        requires
            old(self)@.wf(),
            old(self)@.status is Running,
            old(self)@.awaiting is None,
            0 <= old(self)@.pc < old(self)@.program.len(),
            OpCode::spec_from_byte(old(self)@.program[old(self)@.pc]) == Some(op),
            (op is PushAddressLocalVar || op is PushAddressMainVar),
        ensures
            (final(self)@, e@) == spec_step(old(self)@),
            final(self)@.wf(),
    {
        let ghost pre = self@;
        let n = self.program.len();
        let w = self.bits.data_size();
        proof {
            crate::word::lemma_byte_modulus();
        }

                if n - self.pc < 3 {
                    return self.fail(VmError::ScanPastEnd);
                }
                let off = crate::vm::read_arg_in(&self.program, self.pc + 1);
                let local = match op {
                    OpCode::PushAddressLocalVar => true,
                    _ => false,
                };
                let base: usize = if local {
                    self.fp
                } else {
                    0
                };
                let a: i64 = base as i64 + off as i64;
                self.push_address(a, self.pc + 3)
            
    }

    fn step_push_global(&mut self, op: OpCode) -> (e: Effect)
        requires
            old(self)@.wf(),
            old(self)@.status is Running,
            old(self)@.awaiting is None,
            0 <= old(self)@.pc < old(self)@.program.len(),
            OpCode::spec_from_byte(old(self)@.program[old(self)@.pc]) == Some(op),
            (op is PushValueGlobalVar || op is PushAddressGlobalVar),
        ensures
            (final(self)@, e@) == spec_step(old(self)@),
            final(self)@.wf(),
    {
        let ghost pre = self@;
        let n = self.program.len();
        let w = self.bits.data_size();
        proof {
            crate::word::lemma_byte_modulus();
        }

                if n - self.pc < 5 {
                    return self.fail(VmError::ScanPastEnd);
                }
                let level = crate::vm::read_arg_in(&self.program, self.pc + 1);
                let off = crate::vm::read_arg_in(&self.program, self.pc + 3);
                let flen = self.frames.len();
                if !(level == 0 || (level > 0 && (level as usize) <= flen)) {
                    return self.fail(VmError::BadLexicalLevel);
                }
                let base: usize = if level == 0 {
                    self.fp
                } else {
                    let f = self.frames[flen - level as usize];
                    proof {
                        assert(pre.frames[flen - level as int].wf(pre.program.len() as int));
                    }
                    f.saved_fp
                };
                let a: i64 = base as i64 + off as i64;
                let is_value = match op {
                    OpCode::PushValueGlobalVar => true,
                    _ => false,
                };
                if is_value {
                    self.push_value_at(a, self.pc + 5)
                } else {
                    self.push_address(a, self.pc + 5)
                }
            
    }

    fn step_store(&mut self) -> (e: Effect)
        requires
            old(self)@.wf(),
            old(self)@.status is Running,
            old(self)@.awaiting is None,
            0 <= old(self)@.pc < old(self)@.program.len(),
            OpCode::spec_from_byte(old(self)@.program[old(self)@.pc]) == Some(OpCode::StoreValue),
        ensures
            (final(self)@, e@) == spec_step(old(self)@),
            final(self)@.wf(),
    {
        let ghost pre = self@;
        let n = self.program.len();
        let w = self.bits.data_size();
        proof {
            crate::word::lemma_byte_modulus();
        }

                let len = self.stack.len();
                if len < 2 * w {
                    return self.fail(VmError::StackUnderflow);
                }
                let vd = read_stack_word(&self.stack, &self.bits, len - w);
                let ad = read_stack_word(&self.stack, &self.bits, len - 2 * w);
                proof {
                    let s = pre.stack;
                    let s1 = s.take(s.len() - w as int);
                    assert(s1.subrange(s1.len() - w, s1.len() as int) =~= s.subrange(
                        len - 2 * w,
                        len - w,
                    ));
                }
                let a = ad.i64();
                if a < 0 || a > (STACK_LIMIT - w) as i64 {
                    return self.fail(VmError::BadAddress);
                }
                self.stack.truncate(len - 2 * w);
                proof {
                    assert(self.stack@ =~= pre.stack.take(len - w as int).take(len - 2 * w as int));
                }
                store_word(&mut self.stack, &self.bits, a as usize, vd);
                self.pc = self.pc + 1;
                Effect::Quiet
            
    }

    fn step_output(&mut self) -> (e: Effect)
        requires
            old(self)@.wf(),
            old(self)@.status is Running,
            old(self)@.awaiting is None,
            0 <= old(self)@.pc < old(self)@.program.len(),
            OpCode::spec_from_byte(old(self)@.program[old(self)@.pc]) == Some(OpCode::OutputValue),
        ensures
            (final(self)@, e@) == spec_step(old(self)@),
            final(self)@.wf(),
    {
        let ghost pre = self@;
        let n = self.program.len();
        let w = self.bits.data_size();
        proof {
            crate::word::lemma_byte_modulus();
        }

                let vd = match pop_word(&mut self.stack, &self.bits) {
                    Some(d) => d,
                    None => {
                        return self.fail(VmError::StackUnderflow);
                    },
                };
                self.pc = self.pc + 1;
                Effect::Output(dec_string(vd.i64()))
            
    }

    fn step_input(&mut self) -> (e: Effect)
        requires
            old(self)@.wf(),
            old(self)@.status is Running,
            old(self)@.awaiting is None,
            0 <= old(self)@.pc < old(self)@.program.len(),
            OpCode::spec_from_byte(old(self)@.program[old(self)@.pc]) == Some(OpCode::InputToAddr),
        ensures
            (final(self)@, e@) == spec_step(old(self)@),
            final(self)@.wf(),
    {
        let ghost pre = self@;
        let n = self.program.len();
        let w = self.bits.data_size();
        proof {
            crate::word::lemma_byte_modulus();
        }

                let len = self.stack.len();
                if len < w {
                    return self.fail(VmError::StackUnderflow);
                }
                let ad = read_stack_word(&self.stack, &self.bits, len - w);
                let a = ad.i64();
                if a < 0 || a > (STACK_LIMIT - w) as i64 {
                    return self.fail(VmError::BadAddress);
                }
                self.stack.truncate(len - w);
                proof {
                    assert(self.stack@ =~= pre.stack.take(len - w as int));
                }
                self.awaiting_input = Some(a as usize);
                self.pc = self.pc + 1;
                Effect::AwaitInput
            
    }

    fn step_minusify(&mut self) -> (e: Effect)
        requires
            old(self)@.wf(),
            old(self)@.status is Running,
            old(self)@.awaiting is None,
            0 <= old(self)@.pc < old(self)@.program.len(),
            OpCode::spec_from_byte(old(self)@.program[old(self)@.pc]) == Some(OpCode::Minusify),
        ensures
            (final(self)@, e@) == spec_step(old(self)@),
            final(self)@.wf(),
    {
        let ghost pre = self@;
        let n = self.program.len();
        let w = self.bits.data_size();
        proof {
            crate::word::lemma_byte_modulus();
        }

                let vd = match pop_word(&mut self.stack, &self.bits) {
                    Some(d) => d,
                    None => {
                        return self.fail(VmError::StackUnderflow);
                    },
                };
                let rd = Data::from_wrapped(&self.bits, -(vd.i64() as i128));
                push_word(&mut self.stack, &self.bits, rd);
                self.pc = self.pc + 1;
                Effect::Quiet
            
    }

    fn step_isodd(&mut self) -> (e: Effect)
        requires
            old(self)@.wf(),
            old(self)@.status is Running,
            old(self)@.awaiting is None,
            0 <= old(self)@.pc < old(self)@.program.len(),
            OpCode::spec_from_byte(old(self)@.program[old(self)@.pc]) == Some(OpCode::IsOdd),
        ensures
            (final(self)@, e@) == spec_step(old(self)@),
            final(self)@.wf(),
    {
        let ghost pre = self@;
        let n = self.program.len();
        let w = self.bits.data_size();
        proof {
            crate::word::lemma_byte_modulus();
        }

                let vd = match pop_word(&mut self.stack, &self.bits) {
                    Some(d) => d,
                    None => {
                        return self.fail(VmError::StackUnderflow);
                    },
                };
                let odd = match vd.i64().checked_rem_euclid(2) {
                    Some(rr) => rr != 0,
                    None => false,
                };
                let rd = flag_word(&self.bits, odd);
                push_word(&mut self.stack, &self.bits, rd);
                self.pc = self.pc + 1;
                Effect::Quiet
            
    }

    #[verifier::rlimit(100)]
    fn step_arith(&mut self, op: OpCode) -> (e: Effect)
        requires
            old(self)@.wf(),
            old(self)@.status is Running,
            old(self)@.awaiting is None,
            0 <= old(self)@.pc < old(self)@.program.len(),
            OpCode::spec_from_byte(old(self)@.program[old(self)@.pc]) == Some(op),
            (op is OpAdd || op is OpSubtract || op is OpMultiply || op is OpDivide || op is OpAddAddr),
        ensures
            (final(self)@, e@) == spec_step(old(self)@),
            final(self)@.wf(),
    {
        let ghost pre = self@;
        let n = self.program.len();
        let w = self.bits.data_size();
        proof {
            crate::word::lemma_byte_modulus();
        }

                let len = self.stack.len();
                if len < 2 * w {
                    return self.fail(VmError::StackUnderflow);
                }
                let bd = read_stack_word(&self.stack, &self.bits, len - w);
                let ad = read_stack_word(&self.stack, &self.bits, len - 2 * w);
                proof {
                    let s = pre.stack;
                    let s1 = s.take(s.len() - w as int);
                    assert(s1.subrange(s1.len() - w, s1.len() as int) =~= s.subrange(
                        len - 2 * w,
                        len - w,
                    ));
                }
                let a = ad.i64();
                let b = bd.i64();
                let is_div = match op {
                    OpCode::OpDivide => true,
                    _ => false,
                };
                if is_div && b == 0 {
                    return self.fail(VmError::DivisionByZero);
                }
                let full: i128 = match op {
                    OpCode::OpSubtract => a as i128 - b as i128,
                    OpCode::OpMultiply => {
                        proof {
                            assert((a as int) * (b as int)
                                <= 0x4000_0000_0000_0000_0000_0000_0000_0000
                                && (a as int) * (b as int)
                                >= -0x4000_0000_0000_0000_0000_0000_0000_0000) by (nonlinear_arith)
                                requires
                                    -0x8000_0000_0000_0000 <= a <= 0x7FFF_FFFF_FFFF_FFFF,
                                    -0x8000_0000_0000_0000 <= b <= 0x7FFF_FFFF_FFFF_FFFF,
                            ;
                        }
                        a as i128 * b as i128
                    },
                    OpCode::OpDivide => {
                        proof {
                            lemma_trunc_div(a as int, b as int);
                        }
                        match (a as i128).checked_div(b as i128) {
                            Some(q) => q,
                            None => 0,
                        }
                    },
                    _ => a as i128 + b as i128,
                };
                proof {
                    assert(full as int == arith_spec(op, a as int, b as int));
                }
                let rd = Data::from_wrapped(&self.bits, full);
                self.stack.truncate(len - 2 * w);
                proof {
                    assert(self.stack@ =~= pre.stack.take(len - w as int).take(len - 2 * w as int));
                }
                push_word(&mut self.stack, &self.bits, rd);
                self.pc = self.pc + 1;
                Effect::Quiet
            
    }

    fn step_compare(&mut self, op: OpCode) -> (e: Effect)
        requires
            old(self)@.wf(),
            old(self)@.status is Running,
            old(self)@.awaiting is None,
            0 <= old(self)@.pc < old(self)@.program.len(),
            OpCode::spec_from_byte(old(self)@.program[old(self)@.pc]) == Some(op),
            (op is CompareEq || op is CompareNotEq || op is CompareLT || op is CompareGT || op is CompareLTEq || op is CompareGTEq),
        ensures
            (final(self)@, e@) == spec_step(old(self)@),
            final(self)@.wf(),
    {
        let ghost pre = self@;
        let n = self.program.len();
        let w = self.bits.data_size();
        proof {
            crate::word::lemma_byte_modulus();
        }

                let len = self.stack.len();
                if len < 2 * w {
                    return self.fail(VmError::StackUnderflow);
                }
                let bd = read_stack_word(&self.stack, &self.bits, len - w);
                let ad = read_stack_word(&self.stack, &self.bits, len - 2 * w);
                proof {
                    let s = pre.stack;
                    let s1 = s.take(s.len() - w as int);
                    assert(s1.subrange(s1.len() - w, s1.len() as int) =~= s.subrange(
                        len - 2 * w,
                        len - w,
                    ));
                }
                let a = ad.i64();
                let b = bd.i64();
                let cmp = match op {
                    OpCode::CompareEq => a == b,
                    OpCode::CompareNotEq => a != b,
                    OpCode::CompareLT => a < b,
                    OpCode::CompareGT => a > b,
                    OpCode::CompareLTEq => a <= b,
                    _ => a >= b,
                };
                let rd = flag_word(&self.bits, cmp);
                self.stack.truncate(len - 2 * w);
                proof {
                    assert(self.stack@ =~= pre.stack.take(len - w as int).take(len - 2 * w as int));
                }
                push_word(&mut self.stack, &self.bits, rd);
                self.pc = self.pc + 1;
                Effect::Quiet
            
    }

    fn step_call(&mut self) -> (e: Effect)
        requires
            old(self)@.wf(),
            old(self)@.status is Running,
            old(self)@.awaiting is None,
            0 <= old(self)@.pc < old(self)@.program.len(),
            OpCode::spec_from_byte(old(self)@.program[old(self)@.pc]) == Some(OpCode::CallProc),
        ensures
            (final(self)@, e@) == spec_step(old(self)@),
            final(self)@.wf(),
    {
        let ghost pre = self@;
        let n = self.program.len();
        let w = self.bits.data_size();
        proof {
            crate::word::lemma_byte_modulus();
        }

                if n - self.pc < 3 {
                    return self.fail(VmError::ScanPastEnd);
                }
                let id16 = crate::vm::read_arg_in(&self.program, self.pc + 1);
                if id16 < 0 || id16 as usize >= self.table.len() {
                    return self.fail(VmError::BadProcedureId { offset: self.pc });
                }
                let entry = self.table[id16 as usize];
                proof {
                    assert(entry_ok(pre.program, pre.table[id16 as int] as int, id16 as int));
                }
                let fsize = crate::vm::read_arg_in(&self.program, entry + 5);
                if fsize < 0 {
                    return self.fail(VmError::BadAddress);
                }
                let len = self.stack.len();
                if STACK_LIMIT - len < fsize as usize {
                    return self.fail(VmError::StackLimit);
                }
                self.frames.push(
                    Frame { ret_pc: self.pc + 3, saved_fp: self.fp, saved_len: len },
                );
                self.fp = len;
                grow_to(&mut self.stack, len + fsize as usize);
                self.pc = entry;
                proof {
                    assert(forall|i: int|
                        0 <= i < self.frames@.len() ==> (#[trigger] self.frames@[i]).wf(
                            pre.program.len() as int,
                        ));
                }
                Effect::Quiet
            
    }

    fn step_jump(&mut self) -> (e: Effect)
        requires
            old(self)@.wf(),
            old(self)@.status is Running,
            old(self)@.awaiting is None,
            0 <= old(self)@.pc < old(self)@.program.len(),
            OpCode::spec_from_byte(old(self)@.program[old(self)@.pc]) == Some(OpCode::Jump),
        ensures
            (final(self)@, e@) == spec_step(old(self)@),
            final(self)@.wf(),
    {
        let ghost pre = self@;
        let n = self.program.len();
        let w = self.bits.data_size();
        proof {
            crate::word::lemma_byte_modulus();
        }

                if n - self.pc < 3 {
                    return self.fail(VmError::ScanPastEnd);
                }
                let off = crate::vm::read_arg_in(&self.program, self.pc + 1);
                let t: i128 = self.pc as i128 + 3 + off as i128;
                if t < 0 || t > n as i128 {
                    return self.fail(VmError::BadJumpTarget);
                }
                self.pc = t as usize;
                Effect::Quiet
            
    }

    fn step_jump_if_false(&mut self) -> (e: Effect)
        requires
            old(self)@.wf(),
            old(self)@.status is Running,
            old(self)@.awaiting is None,
            0 <= old(self)@.pc < old(self)@.program.len(),
            OpCode::spec_from_byte(old(self)@.program[old(self)@.pc]) == Some(OpCode::JumpIfFalse),
        ensures
            (final(self)@, e@) == spec_step(old(self)@),
            final(self)@.wf(),
    {
        let ghost pre = self@;
        let n = self.program.len();
        let w = self.bits.data_size();
        proof {
            crate::word::lemma_byte_modulus();
        }

                if n - self.pc < 3 {
                    return self.fail(VmError::ScanPastEnd);
                }
                let len = self.stack.len();
                if len < w {
                    return self.fail(VmError::StackUnderflow);
                }
                let vd = read_stack_word(&self.stack, &self.bits, len - w);
                if vd.i64() == 0 {
                    let off = crate::vm::read_arg_in(&self.program, self.pc + 1);
                    let t: i128 = self.pc as i128 + 3 + off as i128;
                    if t < 0 || t > n as i128 {
                        return self.fail(VmError::BadJumpTarget);
                    }
                    self.stack.truncate(len - w);
                    proof {
                        assert(self.stack@ =~= pre.stack.take(len - w as int));
                    }
                    self.pc = t as usize;
                } else {
                    self.stack.truncate(len - w);
                    proof {
                        assert(self.stack@ =~= pre.stack.take(len - w as int));
                    }
                    self.pc = self.pc + 3;
                }
                Effect::Quiet
            
    }

    fn step_put_string(&mut self) -> (e: Effect)
        requires
            old(self)@.wf(),
            old(self)@.status is Running,
            old(self)@.awaiting is None,
            0 <= old(self)@.pc < old(self)@.program.len(),
            OpCode::spec_from_byte(old(self)@.program[old(self)@.pc]) == Some(OpCode::PutString),
        ensures
            (final(self)@, e@) == spec_step(old(self)@),
            final(self)@.wf(),
    {
        let ghost pre = self@;
        let n = self.program.len();
        let w = self.bits.data_size();
        proof {
            crate::word::lemma_byte_modulus();
        }

                let start = self.pc + 1;
                match find_nul(&self.program, start) {
                    None => self.fail(VmError::ScanPastEnd),
                    Some(nul) => {
                        match crate::utf8::utf8_string(&self.program, start, nul) {
                            None => self.fail(
                                VmError::InvalidLiteral { offset: self.pc },
                            ),
                            Some(txt) => {
                                self.pending_text = Some(txt);
                                self.pc = nul + 1;
                                Effect::Quiet
                            },
                        }
                    },
                }
            
    }

    fn step_put(&mut self) -> (e: Effect)
        requires
            old(self)@.wf(),
            old(self)@.status is Running,
            old(self)@.awaiting is None,
            0 <= old(self)@.pc < old(self)@.program.len(),
            OpCode::spec_from_byte(old(self)@.program[old(self)@.pc]) == Some(OpCode::Put),
        ensures
            (final(self)@, e@) == spec_step(old(self)@),
            final(self)@.wf(),
    {
        let ghost pre = self@;
        let n = self.program.len();
        let w = self.bits.data_size();
        proof {
            crate::word::lemma_byte_modulus();
        }

                let pend = match &self.pending_text {
                    Some(t) => Some(t.clone()),
                    None => None,
                };
                self.pending_text = None;
                self.pc = self.pc + 1;
                match pend {
                    Some(t) => Effect::Output(t),
                    None => Effect::Quiet,
                }
            
    }

    fn step_pop(&mut self) -> (e: Effect)
        requires
            old(self)@.wf(),
            old(self)@.status is Running,
            old(self)@.awaiting is None,
            0 <= old(self)@.pc < old(self)@.program.len(),
            OpCode::spec_from_byte(old(self)@.program[old(self)@.pc]) == Some(OpCode::Pop),
        ensures
            (final(self)@, e@) == spec_step(old(self)@),
            final(self)@.wf(),
    {
        let ghost pre = self@;
        let n = self.program.len();
        let w = self.bits.data_size();
        proof {
            crate::word::lemma_byte_modulus();
        }

                match pop_word(&mut self.stack, &self.bits) {
                    Some(_) => {
                        self.pc = self.pc + 1;
                        Effect::Quiet
                    },
                    None => self.fail(VmError::StackUnderflow),
                }
            
    }

    fn step_swap(&mut self) -> (e: Effect)
        requires
            old(self)@.wf(),
            old(self)@.status is Running,
            old(self)@.awaiting is None,
            0 <= old(self)@.pc < old(self)@.program.len(),
            OpCode::spec_from_byte(old(self)@.program[old(self)@.pc]) == Some(OpCode::Swap),
        ensures
            (final(self)@, e@) == spec_step(old(self)@),
            final(self)@.wf(),
    {
        let ghost pre = self@;
        let n = self.program.len();
        let w = self.bits.data_size();
        proof {
            crate::word::lemma_byte_modulus();
        }

                let len = self.stack.len();
                if len < 2 * w {
                    return self.fail(VmError::StackUnderflow);
                }
                let bd = read_stack_word(&self.stack, &self.bits, len - w);
                let ad = read_stack_word(&self.stack, &self.bits, len - 2 * w);
                proof {
                    let s = pre.stack;
                    let s1 = s.take(s.len() - w as int);
                    assert(s1.subrange(s1.len() - w, s1.len() as int) =~= s.subrange(
                        len - 2 * w,
                        len - w,
                    ));
                }
                self.stack.truncate(len - 2 * w);
                proof {
                    assert(self.stack@ =~= pre.stack.take(len - w as int).take(len - 2 * w as int));
                }
                push_word(&mut self.stack, &self.bits, bd);
                push_word(&mut self.stack, &self.bits, ad);
                self.pc = self.pc + 1;
                Effect::Quiet
            
    }

    /// Deliver the input line the read instruction is waiting on.
    pub fn supply_line(&mut self, line: &Vec<u8>) -> (e: Effect)
        requires
            old(self)@.wf(),
            old(self)@.status is Running,
            old(self)@.awaiting is Some,
        ensures
            (final(self)@, e@) == spec_supply(old(self)@, line@),
            final(self)@.wf(),
    {
        let a = match self.awaiting_input {
            Some(a) => a,
            None => {
                return self.fail(VmError::InputNotNumeric);
            },
        };
        let v = match parse_i64(line) {
            Some(v) => v,
            None => {
                return self.fail(VmError::InputNotNumeric);
            },
        };
        let d = Data::from_wrapped(&self.bits, v as i128);
        store_word(&mut self.stack, &self.bits, a, d);
        self.awaiting_input = None;
        Effect::Quiet
    }

    /// Build the initial machine state of a loaded program: run the
    /// procedure table builder, decode the constant pool, and start at
    /// procedure 0 with an empty stack.
    pub fn start(vm: PL0VM) -> (r: Result<Machine, VmError>)
        requires
            vm.wf(),
        ensures
            match r {
                Ok(m) => {
                    &&& m@.wf()
                    &&& m@.program == vm.program@
                    &&& m@.bits == vm.bits
                    &&& m@.status is Running
                    &&& m@.awaiting is None
                    &&& m@.pending is None
                    &&& m@.stack == Seq::<u8>::empty()
                    &&& m@.frames == Seq::<Frame>::empty()
                    &&& m@.fp == 0
                    &&& m@.table.len() >= 1
                    &&& m@.pc == m@.table[0] as int
                    &&& scan_program(vm.program@) matches ScanResult::Done(ok) && {
                        &&& m@.table.len() == ok.table.len()
                        &&& forall|j: int|
                            0 <= j < m@.table.len() ==> ok.table[j] == Some(
                                (#[trigger] m@.table[j]) as int,
                            )
                        &&& m@.consts.len() == (vm.program@.len() - ok.boundary)
                            / vm.bits.width() as int
                        &&& forall|i: int|
                            0 <= i < m@.consts.len() ==> (#[trigger] m@.consts[i]).value()
                                == word_of_bytes(
                                vm.bits.width(),
                                vm.program@.subrange(
                                    ok.boundary + i * vm.bits.width(),
                                    ok.boundary + i * vm.bits.width() + vm.bits.width(),
                                ),
                            )
                    }
                },
                Err(e) => ({
                    let p = vm.program@;
                    if header_count(p) < 0 {
                        e == VmError::NegativeCount
                    } else {
                        match scan_program(p) {
                            ScanResult::Fail(e2) => e == e2,
                            ScanResult::Done(ok) => e matches VmError::MissingProcedure { id } && (
                            (ok.table.len() == 0 && id == 0) || (0 <= id < ok.table.len()
                                && ok.table[id as int] is None && forall|j: int|
                                0 <= j < id ==> ok.table[j] is Some)),
                        }
                    }
                }),
            },
    {
        let (procs, consts) = match vm.load_data() {
            Ok(x) => x,
            Err(e) => {
                return Err(e);
            },
        };
        if procs.len() == 0 {
            return Err(VmError::MissingProcedure { id: 0 });
        }
        let pc = procs[0];
        let m = Machine {
            program: vm.program,
            bits: vm.bits,
            table: procs,
            consts,
            pc,
            fp: 0,
            stack: Vec::new(),
            frames: Vec::new(),
            pending_text: None,
            awaiting_input: None,
            status: Status::Running,
        };
        proof {
            assert(m@.stack =~= Seq::<u8>::empty());
            assert(m@.frames =~= Seq::<Frame>::empty());
        }
        Ok(m)
    }
}

/// A word holding 1 or 0 in the configured width.
fn flag_word(bits: &Data, one: bool) -> (r: Data)
    ensures
        r.width() == bits.width(),
        r.value() == if one {
            1int
        } else {
            0int
        },
{
    proof {
        crate::word::lemma_byte_modulus();
        lemma_wrap_val(
            bits.width(),
            if one {
                1int
            } else {
                0int
            },
        );
    }
    Data::from_wrapped(
        bits,
        if one {
            1
        } else {
            0
        },
    )
}

} // verus!
