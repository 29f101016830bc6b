//! Laws of the machine that tie several components together: how pushed
//! arithmetic results wrap at the configured width, and how a call followed
//! by a return restores the caller.

use vstd::prelude::*;
use crate::machine::{
    push_word_spec, spec_step, top_word_spec, MState, Status,
};
use crate::opcode::OpCode;
use crate::word::{
    byte_modulus, in_width, lemma_le_bytes_len, lemma_le_round_trip, lemma_wrap_val,
    unsigned_val, wrap_val,
};
use vstd::arithmetic::div_mod::lemma_small_mod;

verus! {

/// Reading back the word just pushed yields the value truncated to the
/// width: the stack round-trips every word through its byte serialization.
pub proof fn lemma_push_top(s: Seq<u8>, w: nat, v: int)
    requires
        1 <= w,
    ensures
        push_word_spec(s, w, v).len() == s.len() + w,
        top_word_spec(push_word_spec(s, w, v), w) == wrap_val(w, v),
{
    let u = unsigned_val(w, v);
    crate::word::lemma_byte_modulus_positive(w);
    vstd::arithmetic::div_mod::lemma_mod_division_less_than_divisor(v, byte_modulus(w));
    lemma_le_bytes_len(w, u);
    let s2 = push_word_spec(s, w, v);
    assert(s2.subrange(s2.len() - w, s2.len() as int) =~= crate::word::le_bytes(w, u));
    lemma_le_round_trip(w, u);
    lemma_small_mod(u as nat, byte_modulus(w) as nat);
    lemma_wrap_val(w, v);
    lemma_wrap_val(w, u);
    if wrap_val(w, v) != wrap_val(w, u) {
        vstd::arithmetic::div_mod::lemma_mod_twice(v, byte_modulus(w));
    }
}

/// With the word width selected by the architecture marker, a binary
/// arithmetic instruction computes at full precision and truncates the
/// result to that width: what lands on the stack is in the width's range
/// and congruent to the exact sum modulo 256^width.
pub proof fn lemma_add_wraps(pre: MState)
    requires
        pre.wf(),
        pre.status is Running,
        0 <= pre.pc < pre.program.len(),
        OpCode::spec_from_byte(pre.program[pre.pc]) == Some(OpCode::OpAdd),
        pre.stack.len() >= 2 * pre.bits.width(),
    ensures
        ({
            let w = pre.bits.width();
            let b = top_word_spec(pre.stack, w);
            let a = top_word_spec(pre.stack.take(pre.stack.len() - w), w);
            let post = spec_step(pre).0;
            &&& post.stack.len() == pre.stack.len() - w
            &&& top_word_spec(post.stack, w) == wrap_val(w, a + b)
            &&& in_width(w, top_word_spec(post.stack, w))
            &&& (a + b - top_word_spec(post.stack, w)) % byte_modulus(w) == 0
        }),
{
    let w = pre.bits.width();
    let s = pre.stack;
    let b = top_word_spec(s, w);
    let s1 = s.take(s.len() - w);
    let a = top_word_spec(s1, w);
    let s2 = s1.take(s1.len() - w);
    lemma_push_top(s2, w, wrap_val(w, a + b));
    lemma_wrap_val(w, a + b);
    lemma_wrap_val(w, wrap_val(w, a + b));
}

/// A `CallProc` transition followed by a `ReturnProc` executed in any later
/// state with the same call-linkage stack restores the exact pre-call frame
/// pointer and resumes at the instruction following the call; when nothing
/// below the callee's frame base was popped meanwhile, the pre-call stack
/// height is restored too.
pub proof fn lemma_call_return(pre: MState, callee: MState, ret: MState)
    requires
        pre.wf(),
        pre.program.len() <= usize::MAX,
        pre.status is Running,
        0 <= pre.pc < pre.program.len(),
        OpCode::spec_from_byte(pre.program[pre.pc]) == Some(OpCode::CallProc),
        callee == spec_step(pre).0,
        callee.status is Running,
        ret.status is Running,
        ret.frames == callee.frames,
        0 <= ret.pc < ret.program.len(),
        OpCode::spec_from_byte(ret.program[ret.pc]) == Some(OpCode::ReturnProc),
    ensures
        spec_step(ret).0.fp == pre.fp,
        spec_step(ret).0.pc == pre.pc + 3,
        ret.stack.len() >= pre.stack.len() ==> spec_step(ret).0.stack.len() == pre.stack.len(),
{
    assert(callee.frames.len() == pre.frames.len() + 1);
    assert(ret.frames.last() == callee.frames.last());
}

} // verus!
