//! Execution scenarios: the interpreter run against small assembled
//! programs, through the effect interface an embedder would use.

use pl0_vm::error::{ErrorKind, VmError};
use pl0_vm::machine::{Effect, Machine, Status};
use pl0_vm::opcode::OpCode;
use pl0_vm::vm::PL0VM;

fn imm(v: i16) -> [u8; 2] {
    v.to_le_bytes()
}

/// Header + body + constant pool, with pool words in the marker's width.
fn program(count: i16, arch: i16, body: &[u8], consts: &[i64]) -> Vec<u8> {
    let mut p = Vec::new();
    p.extend_from_slice(&imm(count));
    p.extend_from_slice(&imm(arch));
    p.extend_from_slice(body);
    for c in consts {
        p.extend_from_slice(&c.to_le_bytes()[..arch as usize]);
    }
    p
}

/// Run a machine to a halt, feeding `inputs` to the read instruction one
/// line at a time, and collect everything it prints.
fn run(bytes: Vec<u8>, inputs: &[&str]) -> (Vec<String>, Status) {
    let vm = PL0VM::from_bytes(bytes).unwrap();
    let mut m = Machine::start(vm).unwrap();
    let mut outs = Vec::new();
    let mut next_input = 0;
    for _ in 0..100000 {
        match m.step() {
            Effect::Quiet => {}
            Effect::Output(s) => outs.push(s),
            Effect::AwaitInput => {
                let line: Vec<u8> = inputs[next_input].as_bytes().to_vec();
                next_input += 1;
                match m.supply_line(&line) {
                    Effect::Abort(_) => return (outs, m.status),
                    _ => {}
                }
            }
            Effect::Stop => return (outs, m.status),
            Effect::Abort(_) => return (outs, m.status),
        }
    }
    panic!("program did not halt");
}

/// `EntryProc` with the given remaining-byte count, id and frame size.
fn entry(body: &mut Vec<u8>, remaining: i16, id: i16, frame: i16) {
    body.push(OpCode::EntryProc.byte());
    body.extend_from_slice(&imm(remaining));
    body.extend_from_slice(&imm(id));
    body.extend_from_slice(&imm(frame));
}

fn op1(body: &mut Vec<u8>, op: OpCode, arg: i16) {
    body.push(op.byte());
    body.extend_from_slice(&imm(arg));
}

#[test]
fn prints_the_answer_and_halts() {
    // Header [count=1][arch=2]; EntryProc(remaining=9, id=0, frame=0);
    // PushConstant(0); OutputValue; ReturnProc; pool [42].
    let mut body = Vec::new();
    entry(&mut body, 9, 0, 0);
    op1(&mut body, OpCode::PushConstant, 0);
    body.push(OpCode::OutputValue.byte());
    body.push(OpCode::ReturnProc.byte());
    let (outs, status) = run(program(1, 2, &body, &[42]), &[]);
    assert_eq!(outs, vec!["42".to_string()]);
    assert_eq!(status, Status::Done);
}

#[test]
fn sixteen_bit_addition_wraps() {
    // 32000 + 1000 overflows a 16-bit word to -32536.
    let mut body = Vec::new();
    entry(&mut body, 13, 0, 0);
    op1(&mut body, OpCode::PushConstant, 0);
    op1(&mut body, OpCode::PushConstant, 1);
    body.push(OpCode::OpAdd.byte());
    body.push(OpCode::OutputValue.byte());
    body.push(OpCode::ReturnProc.byte());
    let (outs, status) = run(program(1, 2, &body, &[32000, 1000]), &[]);
    assert_eq!(outs, vec!["-32536".to_string()]);
    assert_eq!(status, Status::Done);
}

#[test]
fn thirty_two_bit_addition_wraps() {
    let mut body = Vec::new();
    entry(&mut body, 13, 0, 0);
    op1(&mut body, OpCode::PushConstant, 0);
    op1(&mut body, OpCode::PushConstant, 1);
    body.push(OpCode::OpAdd.byte());
    body.push(OpCode::OutputValue.byte());
    body.push(OpCode::ReturnProc.byte());
    let (outs, _) = run(program(1, 4, &body, &[i32::MAX as i64, 1]), &[]);
    assert_eq!(outs, vec!["-2147483648".to_string()]);
}

#[test]
fn sixty_four_bit_addition_wraps() {
    let mut body = Vec::new();
    entry(&mut body, 13, 0, 0);
    op1(&mut body, OpCode::PushConstant, 0);
    op1(&mut body, OpCode::PushConstant, 1);
    body.push(OpCode::OpAdd.byte());
    body.push(OpCode::OutputValue.byte());
    body.push(OpCode::ReturnProc.byte());
    let (outs, _) = run(program(1, 8, &body, &[i64::MAX, 1]), &[]);
    assert_eq!(outs, vec!["-9223372036854775808".to_string()]);
}

#[test]
fn lexical_level_reads_the_callers_frame() {
    // The caller stores 5 at its frame base; the callee fetches it one
    // lexical level up and prints it.
    let mut body = Vec::new();
    entry(&mut body, 15, 0, 0);
    op1(&mut body, OpCode::PushAddressMainVar, 0);
    op1(&mut body, OpCode::PushConstant, 0); // 5
    body.push(OpCode::StoreValue.byte());
    op1(&mut body, OpCode::CallProc, 1);
    body.push(OpCode::ReturnProc.byte());
    entry(&mut body, 11, 1, 0);
    body.push(OpCode::PushValueGlobalVar.byte());
    body.extend_from_slice(&imm(1));
    body.extend_from_slice(&imm(0));
    body.push(OpCode::OutputValue.byte());
    body.push(OpCode::ReturnProc.byte());
    let (outs, status) = run(program(2, 2, &body, &[5]), &[]);
    assert_eq!(outs, vec!["5".to_string()]);
    assert_eq!(status, Status::Done);
}

#[test]
fn countdown_loop_runs_exactly_three_times() {
    // i := 3; print i and decrement until JumpIfFalse leaves the loop via
    // a backward Jump: the loop body must run exactly three times.
    let mut body = Vec::new();
    entry(&mut body, 36, 0, 0);
    op1(&mut body, OpCode::PushAddressMainVar, 0);
    op1(&mut body, OpCode::PushConstant, 0); // 3
    body.push(OpCode::StoreValue.byte());
    // L1:
    op1(&mut body, OpCode::PushValueMainVar, 0);
    body.push(OpCode::OutputValue.byte());
    op1(&mut body, OpCode::PushAddressMainVar, 0);
    op1(&mut body, OpCode::PushValueMainVar, 0);
    op1(&mut body, OpCode::PushConstant, 1); // 1
    body.push(OpCode::OpSubtract.byte());
    body.push(OpCode::StoreValue.byte());
    op1(&mut body, OpCode::PushValueMainVar, 0);
    op1(&mut body, OpCode::JumpIfFalse, 3); // to L2
    op1(&mut body, OpCode::Jump, -24); // back to L1
    // L2:
    body.push(OpCode::ReturnProc.byte());
    let (outs, status) = run(program(1, 2, &body, &[3, 1]), &[]);
    assert_eq!(
        outs,
        vec!["3".to_string(), "2".to_string(), "1".to_string()]
    );
    assert_eq!(status, Status::Done);
}

#[test]
fn call_and_return_resume_after_the_call() {
    // Procedure 0 calls procedure 1, which returns immediately; execution
    // resumes at the instruction after the call and prints 7.
    let mut body = Vec::new();
    entry(&mut body, 12, 0, 0);
    op1(&mut body, OpCode::CallProc, 1);
    op1(&mut body, OpCode::PushConstant, 0);
    body.push(OpCode::OutputValue.byte());
    body.push(OpCode::ReturnProc.byte());
    entry(&mut body, 5, 1, 0);
    body.push(OpCode::ReturnProc.byte());
    let (outs, status) = run(program(2, 2, &body, &[7]), &[]);
    assert_eq!(outs, vec!["7".to_string()]);
    assert_eq!(status, Status::Done);
}

fn read_program() -> Vec<u8> {
    let mut body = Vec::new();
    entry(&mut body, 13, 0, 0);
    op1(&mut body, OpCode::PushAddressMainVar, 0);
    body.push(OpCode::InputToAddr.byte());
    op1(&mut body, OpCode::PushValueMainVar, 0);
    body.push(OpCode::OutputValue.byte());
    body.push(OpCode::ReturnProc.byte());
    program(1, 2, &body, &[])
}

#[test]
fn reads_a_number_from_a_line() {
    let (outs, status) = run(read_program(), &["123\n"]);
    assert_eq!(outs, vec!["123".to_string()]);
    assert_eq!(status, Status::Done);
}

#[test]
fn trims_and_accepts_signed_input() {
    let (outs, _) = run(read_program(), &["  -7 \n"]);
    assert_eq!(outs, vec!["-7".to_string()]);
    let (outs, _) = run(read_program(), &["+9\n"]);
    assert_eq!(outs, vec!["9".to_string()]);
}

#[test]
fn non_numeric_input_is_fatal() {
    // The read instruction must abort, not silently store zero.
    let (outs, status) = run(read_program(), &["abc\n"]);
    assert_eq!(outs, Vec::<String>::new());
    assert_eq!(status, Status::Failed(VmError::InputNotNumeric));
    assert_eq!(
        VmError::InputNotNumeric.kind(),
        ErrorKind::RuntimeInputError
    );
}

#[test]
fn partially_numeric_input_is_fatal() {
    let (_, status) = run(read_program(), &["12x\n"]);
    assert_eq!(status, Status::Failed(VmError::InputNotNumeric));
    let (_, status) = run(read_program(), &["\n"]);
    assert_eq!(status, Status::Failed(VmError::InputNotNumeric));
}

#[test]
fn division_truncates_toward_zero() {
    let mut body = Vec::new();
    entry(&mut body, 13, 0, 0);
    op1(&mut body, OpCode::PushConstant, 0);
    op1(&mut body, OpCode::PushConstant, 1);
    body.push(OpCode::OpDivide.byte());
    body.push(OpCode::OutputValue.byte());
    body.push(OpCode::ReturnProc.byte());
    let (outs, _) = run(program(1, 2, &body, &[7, 2]), &[]);
    assert_eq!(outs, vec!["3".to_string()]);
    let (outs, _) = run(program(1, 2, &body, &[-7, 2]), &[]);
    assert_eq!(outs, vec!["-3".to_string()]);
}

#[test]
fn division_by_zero_is_fatal() {
    let mut body = Vec::new();
    entry(&mut body, 12, 0, 0);
    op1(&mut body, OpCode::PushConstant, 0);
    op1(&mut body, OpCode::PushConstant, 1);
    body.push(OpCode::OpDivide.byte());
    body.push(OpCode::ReturnProc.byte());
    let (_, status) = run(program(1, 2, &body, &[1, 0]), &[]);
    assert_eq!(status, Status::Failed(VmError::DivisionByZero));
    assert_eq!(
        VmError::DivisionByZero.kind(),
        ErrorKind::ArithmeticError
    );
}

#[test]
fn comparisons_and_odd_tests_push_flags() {
    let mut body = Vec::new();
    entry(&mut body, 23, 0, 0);
    op1(&mut body, OpCode::PushConstant, 0); // 2
    op1(&mut body, OpCode::PushConstant, 1); // 3
    body.push(OpCode::CompareLT.byte());
    body.push(OpCode::OutputValue.byte());
    op1(&mut body, OpCode::PushConstant, 2); // -3
    body.push(OpCode::IsOdd.byte());
    body.push(OpCode::OutputValue.byte());
    op1(&mut body, OpCode::PushConstant, 1);
    body.push(OpCode::Minusify.byte());
    body.push(OpCode::OutputValue.byte());
    body.push(OpCode::ReturnProc.byte());
    let (outs, _) = run(program(1, 2, &body, &[2, 3, -3]), &[]);
    assert_eq!(
        outs,
        vec!["1".to_string(), "1".to_string(), "-3".to_string()]
    );
}

#[test]
fn swap_exchanges_the_top_words() {
    let mut body = Vec::new();
    entry(&mut body, 14, 0, 0);
    op1(&mut body, OpCode::PushConstant, 0); // 1
    op1(&mut body, OpCode::PushConstant, 1); // 2
    body.push(OpCode::Swap.byte());
    body.push(OpCode::OutputValue.byte());
    body.push(OpCode::OutputValue.byte());
    body.push(OpCode::ReturnProc.byte());
    let (outs, _) = run(program(1, 2, &body, &[1, 2]), &[]);
    assert_eq!(outs, vec!["1".to_string(), "2".to_string()]);
}

#[test]
fn string_literal_is_produced_by_put() {
    let mut body = Vec::new();
    entry(&mut body, 10, 0, 0);
    body.push(OpCode::PutString.byte());
    body.extend_from_slice(b"ok");
    body.push(0);
    body.push(OpCode::Put.byte());
    body.push(OpCode::ReturnProc.byte());
    let (outs, status) = run(program(1, 2, &body, &[]), &[]);
    assert_eq!(outs, vec!["ok".to_string()]);
    assert_eq!(status, Status::Done);
}

#[test]
fn multi_byte_literals_decode_as_utf8() {
    let text = "héllo ✓";
    let payload = text.as_bytes();
    let mut body = Vec::new();
    entry(&mut body, payload.len() as i16 + 8, 0, 0);
    body.push(OpCode::PutString.byte());
    body.extend_from_slice(payload);
    body.push(0);
    body.push(OpCode::Put.byte());
    body.push(OpCode::ReturnProc.byte());
    let (outs, status) = run(program(1, 2, &body, &[]), &[]);
    assert_eq!(outs, vec![text.to_string()]);
    assert_eq!(status, Status::Done);
}

#[test]
fn malformed_literal_is_fatal() {
    let mut body = Vec::new();
    entry(&mut body, 10, 0, 0);
    body.push(OpCode::PutString.byte());
    body.extend_from_slice(&[0xC3, 0x28]); // a lead byte without its continuation
    body.push(0);
    body.push(OpCode::Put.byte());
    body.push(OpCode::ReturnProc.byte());
    let (_, status) = run(program(1, 2, &body, &[]), &[]);
    assert_eq!(
        status,
        Status::Failed(VmError::InvalidLiteral { offset: 11 })
    );
}

#[test]
fn end_of_code_halts_normally() {
    let mut body = Vec::new();
    entry(&mut body, 5, 0, 0);
    body.push(OpCode::EndOfCode.byte());
    let (outs, status) = run(program(1, 2, &body, &[]), &[]);
    assert_eq!(outs, Vec::<String>::new());
    assert_eq!(status, Status::Done);
}

#[test]
fn starting_with_no_procedures_fails() {
    let vm = PL0VM::from_bytes(program(0, 2, &[], &[])).unwrap();
    match Machine::start(vm) {
        Err(VmError::MissingProcedure { id: 0 }) => {}
        other => panic!("unexpected: {:?}", other.is_ok()),
    }
}
