//! Tests of the word model, the loader, the table builder and the
//! disassembler.

use pl0_vm::error::{ErrorKind, VmError};
use pl0_vm::opcode::OpCode;
use pl0_vm::vm::PL0VM;
use pl0_vm::word::{word_from_bytes, Data};

fn imm(v: i16) -> [u8; 2] {
    v.to_le_bytes()
}

/// Header + body + 16-bit constant pool for a one-procedure program.
fn program16(count: i16, arch: i16, body: &[u8], consts: &[i16]) -> Vec<u8> {
    let mut p = Vec::new();
    p.extend_from_slice(&imm(count));
    p.extend_from_slice(&imm(arch));
    p.extend_from_slice(body);
    for c in consts {
        p.extend_from_slice(&c.to_le_bytes());
    }
    p
}

/// The one-procedure demonstration program: print the constant 42.
fn print42() -> Vec<u8> {
    let mut body = Vec::new();
    body.push(OpCode::EntryProc.byte());
    body.extend_from_slice(&imm(9)); // id + frame + 5 code bytes
    body.extend_from_slice(&imm(0));
    body.extend_from_slice(&imm(0));
    body.push(OpCode::PushConstant.byte());
    body.extend_from_slice(&imm(0));
    body.push(OpCode::OutputValue.byte());
    body.push(OpCode::ReturnProc.byte());
    program16(1, 2, &body, &[42])
}

#[test]
fn word_round_trip_all_widths() {
    let cases16: [i16; 6] = [0, 1, -1, i16::MIN, i16::MAX, -12345];
    for v in cases16 {
        let d = Data::B16(v);
        let bytes = d.to_bytes();
        assert_eq!(bytes.len(), 2);
        let back = word_from_bytes(&bytes, 0, &Data::B16(0));
        assert_eq!(back, d);
    }
    let cases32: [i32; 6] = [0, -1, i32::MIN, i32::MAX, 7_654_321, -7_654_321];
    for v in cases32 {
        let d = Data::B32(v);
        let back = word_from_bytes(&d.to_bytes(), 0, &Data::B32(0));
        assert_eq!(back, d);
    }
    let cases64: [i64; 6] = [0, -1, i64::MIN, i64::MAX, 1 << 40, -(1 << 40)];
    for v in cases64 {
        let d = Data::B64(v);
        let back = word_from_bytes(&d.to_bytes(), 0, &Data::B64(0));
        assert_eq!(back, d);
    }
}

#[test]
fn word_serialization_is_little_endian() {
    assert_eq!(Data::B16(-2).to_bytes(), vec![0xFE, 0xFF]);
    assert_eq!(Data::B32(0x0102_0304).to_bytes(), vec![4, 3, 2, 1]);
    assert_eq!(Data::B64(-1).to_bytes(), vec![0xFF; 8]);
}

#[test]
fn truncation_wraps_to_width() {
    let d = Data::from_wrapped(&Data::B16(0), 33000);
    assert_eq!(d, Data::B16(33000i64 as i16));
    let d = Data::from_wrapped(&Data::B16(0), -33000);
    assert_eq!(d, Data::B16(-33000i64 as i16));
    let d = Data::from_wrapped(&Data::B32(0), 1 << 40);
    assert_eq!(d, Data::B32(0));
    let d = Data::from_wrapped(&Data::B64(0), (1i128 << 70) + 5);
    assert_eq!(d, Data::B64(5));
}

#[test]
fn loader_selects_width_from_marker() {
    for (arch, width) in [(2i16, 2usize), (4, 4), (8, 8)] {
        let p = program16(0, arch, &[], &[]);
        let vm = PL0VM::from_bytes(p).unwrap();
        assert_eq!(vm.data_size(), width);
    }
}

#[test]
fn loader_rejects_bad_headers() {
    assert!(matches!(
        PL0VM::from_bytes(vec![1, 0, 2]),
        Err(VmError::TruncatedHeader)
    ));
    let p = program16(1, 3, &[], &[]);
    assert!(matches!(PL0VM::from_bytes(p), Err(VmError::InvalidArch)));
    assert_eq!(
        VmError::InvalidArch.kind(),
        ErrorKind::FormatError
    );
}

#[test]
fn builder_finds_procedures_and_pool() {
    let vm = PL0VM::from_bytes(print42()).unwrap();
    let (procs, consts) = vm.load_data().unwrap();
    assert_eq!(procs, vec![4]);
    assert_eq!(consts.len(), 1);
    assert_eq!(consts[0].i64(), 42);
}

#[test]
fn builder_rejects_unknown_opcode() {
    let mut body = Vec::new();
    body.push(OpCode::EntryProc.byte());
    body.extend_from_slice(&imm(5)); // id + frame + 1 code byte
    body.extend_from_slice(&imm(0));
    body.extend_from_slice(&imm(0));
    body.push(0xEE);
    let vm = PL0VM::from_bytes(program16(1, 2, &body, &[])).unwrap();
    assert_eq!(
        vm.load_data(),
        Err(VmError::UnknownOpcode { offset: 11 })
    );
}

#[test]
fn builder_rejects_truncated_scan() {
    // One declared procedure, but the buffer ends before any EntryProc.
    let vm = PL0VM::from_bytes(program16(1, 2, &[], &[])).unwrap();
    assert_eq!(vm.load_data(), Err(VmError::ScanPastEnd));
}

#[test]
fn builder_rejects_missing_procedure() {
    // The single EntryProc declares id 1 while ids 0 and 1 are expected.
    let mut body = Vec::new();
    body.push(OpCode::EntryProc.byte());
    body.extend_from_slice(&imm(5));
    body.extend_from_slice(&imm(1));
    body.extend_from_slice(&imm(0));
    body.push(OpCode::ReturnProc.byte());
    // Declared count 2 never completes: the scan stops after one procedure
    // only when both counters hit zero, so it runs past the end instead.
    let vm = PL0VM::from_bytes(program16(2, 2, &body, &[])).unwrap();
    assert_eq!(vm.load_data(), Err(VmError::ScanPastEnd));
}

#[test]
fn builder_reports_the_first_missing_id() {
    // Two declared procedures, but both entries claim id 0.
    let mut body = Vec::new();
    for _ in 0..2 {
        body.push(OpCode::EntryProc.byte());
        body.extend_from_slice(&imm(5));
        body.extend_from_slice(&imm(0));
        body.extend_from_slice(&imm(0));
        body.push(OpCode::ReturnProc.byte());
    }
    let vm = PL0VM::from_bytes(program16(2, 2, &body, &[])).unwrap();
    assert_eq!(vm.load_data(), Err(VmError::MissingProcedure { id: 1 }));
}

#[test]
fn disassembler_agrees_with_builder_on_the_boundary() {
    let vm = PL0VM::from_bytes(print42()).unwrap();
    let (procs, consts) = vm.load_data().unwrap();
    let lines = vm.analyze().unwrap();
    // Four instructions plus exactly the builder's constants.
    assert_eq!(lines.len(), 4 + consts.len());
    assert_eq!(procs.len(), 1);
}

#[test]
fn disassembler_renders_the_trace() {
    let vm = PL0VM::from_bytes(print42()).unwrap();
    let lines = vm.analyze().unwrap();
    assert_eq!(
        lines,
        vec![
            "0000: 01 EntryProc 0009, 0000, 0000  <<< Procedure start".to_string(),
            "0007: 03 PushConstant 0000".to_string(),
            "000A: 0E OutputValue".to_string(),
            "000B: 02 ReturnProc".to_string(),
            "Constant 0000: 0x002A = 42".to_string(),
        ]
    );
}

#[test]
fn disassembler_renders_signed_branches_and_literals() {
    let mut body = Vec::new();
    body.push(OpCode::EntryProc.byte());
    body.extend_from_slice(&imm(16)); // id + frame + 12 code bytes
    body.extend_from_slice(&imm(0));
    body.extend_from_slice(&imm(0));
    body.push(OpCode::Jump.byte());
    body.extend_from_slice(&imm(-3));
    body.push(OpCode::PutString.byte());
    body.extend_from_slice(b"hi");
    body.push(0);
    body.push(OpCode::Put.byte());
    body.push(OpCode::JumpIfFalse.byte());
    body.extend_from_slice(&imm(1));
    body.push(OpCode::ReturnProc.byte());
    let vm = PL0VM::from_bytes(program16(1, 2, &body, &[])).unwrap();
    let lines = vm.analyze().unwrap();
    assert_eq!(lines[1], "0007: 0C Jump -0003");
    assert_eq!(lines[2], "000A: 1C PutString \"hi\"");
    assert_eq!(lines[3], "000E: 1F Put");
    assert_eq!(lines[4], "000F: 0D JumpIfFalse 0001");
}

#[test]
fn opcode_bytes_round_trip() {
    for b in 0u8..=0x21 {
        let op = OpCode::from_byte(b).unwrap();
        assert_eq!(op.byte(), b);
    }
    assert_eq!(OpCode::from_byte(0x22), None);
    assert_eq!(OpCode::from_byte(0xFF), None);
}

#[test]
fn empty_machine_has_no_program() {
    let vm = PL0VM::new();
    assert_eq!(vm.data_size(), 2);
}
