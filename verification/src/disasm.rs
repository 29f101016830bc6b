//! The disassembler: a second, independent linear-scan consumer of the code
//! segment. It renders every instruction (offset, opcode byte, mnemonic,
//! immediates in hexadecimal, branch offsets with an explicit sign) and then
//! every constant pool entry, without executing anything. It must derive the
//! same constant-pool boundary as the procedure table builder; that the two
//! agree for every well-formed buffer is `lemma_boundary_agreement`.

use vstd::prelude::*;
use crate::error::VmError;
use crate::opcode::OpCode;
use crate::render::{
    dec_chars, dec_digits_fixed, hex_digits_fixed, push_dec_fixed, push_dec_i64, push_hex_fixed,
    push_str_all,
};
use crate::scan::{instr_end, nul_run, scan_from, scan_program, ScanResult};
use crate::vm::{header_count, imm_at, PL0VM};
use crate::word::{lemma_byte_modulus, unsigned_val, word_of_bytes};
use vstd::arithmetic::div_mod::lemma_fundamental_div_mod;

verus! {

/// The four hexadecimal digits of a signed 16-bit immediate's bit pattern.
pub open spec fn hex4u(v: int) -> Seq<char> {
    hex_digits_fixed(unsigned_val(2, v), 4)
}

/// Characters of a literal's bytes: ASCII bytes as themselves, anything
/// else as a question mark.
pub open spec fn lossy_chars(s: Seq<u8>) -> Seq<char> {
    Seq::new(
        s.len(),
        |i: int|
            if s[i] < 0x80 {
                s[i] as char
            } else {
                '?'
            },
    )
}

/// The rendered operand part of the instruction at `off`.
pub open spec fn instr_args_spec(p: Seq<u8>, off: int, op: OpCode) -> Seq<char> {
    match op {
        OpCode::EntryProc => " "@ + hex4u(imm_at(p, off + 1)) + ", "@ + hex4u(imm_at(p, off + 3))
            + ", "@ + hex4u(imm_at(p, off + 5)) + "  <<< Procedure start"@,
        OpCode::PushValueGlobalVar | OpCode::PushAddressGlobalVar => " "@ + hex4u(
            imm_at(p, off + 1),
        ) + ", "@ + hex4u(imm_at(p, off + 3)),
        OpCode::Jump | OpCode::JumpIfFalse => {
            let v = imm_at(p, off + 1);
            if v < 0 {
                " -"@ + hex_digits_fixed(-v, 4)
            } else {
                " "@ + hex_digits_fixed(v, 4)
            }
        },
        OpCode::PushConstant | OpCode::CallProc | OpCode::PushValueLocalVar
            | OpCode::PushValueMainVar | OpCode::PushAddressLocalVar
            | OpCode::PushAddressMainVar => " "@ + hex4u(imm_at(p, off + 1)),
        OpCode::PutString => {
            match nul_run(p, off + 1) {
                None => Seq::empty(),
                Some(k) => " \""@ + lossy_chars(p.subrange(off + 1, off + 1 + k)) + "\""@,
            }
        },
        _ => Seq::empty(),
    }
}

/// One rendered instruction line: the byte offset relative to the header,
/// the opcode byte, the mnemonic, and the decoded operands.
pub open spec fn instr_line_spec(p: Seq<u8>, off: int) -> Seq<char> {
    let b = p[off];
    let op = OpCode::spec_from_byte(b)->Some_0;
    hex_digits_fixed(off - 4, 4) + ": "@ + hex_digits_fixed(b as int, 2) + " "@
        + op.spec_mnemonic() + instr_args_spec(p, off, op)
}

/// One rendered constant pool line: index, hexadecimal bit pattern of the
/// full word width, decimal value.
pub open spec fn const_line_spec(w: nat, i: int, v: int) -> Seq<char> {
    "Constant "@ + dec_digits_fixed(i, 4) + ": 0x"@ + hex_digits_fixed(
        unsigned_val(w as nat, v),
        2 * w,
    ) + " = "@ + dec_chars(v)
}

/// Where the builder puts the constant-pool boundary.
pub open spec fn builder_boundary(p: Seq<u8>) -> Option<int> {
    match scan_program(p) {
        ScanResult::Done(ok) => Some(ok.boundary),
        ScanResult::Fail(_) => None,
    }
}

/// Where the disassembler puts it: one past the end of the last rendered
/// instruction (or right after the header when there is none).
pub open spec fn disasm_boundary(p: Seq<u8>) -> Option<int> {
    match scan_program(p) {
        ScanResult::Done(ok) => Some(
            if ok.offsets.len() == 0 {
                4int
            } else {
                instr_end(p, ok.offsets.last())->Some_0
            },
        ),
        ScanResult::Fail(_) => None,
    }
}

/// A completed scan's boundary is exactly the end of the last instruction
/// it consumed.
proof fn lemma_scan_offsets(
    p: Seq<u8>,
    pc: int,
    rem: int,
    procs: int,
    table: Seq<Option<int>>,
    offsets: Seq<int>,
)
    requires
        scan_from(p, pc, rem, procs, table, offsets) is Done,
    ensures
        ({
            let ok = scan_from(p, pc, rem, procs, table, offsets)->Done_0;
            &&& ok.offsets.len() >= offsets.len()
            &&& ok.offsets.take(offsets.len() as int) == offsets
            &&& (ok.offsets.len() == offsets.len() ==> ok.boundary == pc)
            &&& (ok.offsets.len() > offsets.len() ==> ok.boundary == instr_end(
                p,
                ok.offsets.last(),
            )->Some_0)
        }),
    decreases p.len() - pc,
{
    let res = scan_from(p, pc, rem, procs, table, offsets)->Done_0;
    if rem <= 0 && procs == 0 {
        assert(res.offsets.take(offsets.len() as int) =~= offsets);
    } else if !(0 <= pc < p.len()) {
    } else {
        match OpCode::spec_from_byte(p[pc]) {
            None => {},
            Some(op) => {
                if op is EntryProc && rem == 0 {
                    if pc + 7 > p.len() {
                    } else {
                        let id = imm_at(p, pc + 3);
                        if !(0 <= id < table.len()) {
                        } else {
                            lemma_scan_offsets(
                                p,
                                pc + 7,
                                imm_at(p, pc + 1) - 4,
                                procs - 1,
                                table.update(id, Some(pc)),
                                offsets.push(pc),
                            );
                            assert(offsets.push(pc).take(offsets.len() as int) =~= offsets);
                            if res.offsets.len() == offsets.push(pc).len() {
                                assert(res.offsets.take(res.offsets.len() as int) =~= res.offsets);
                                assert(res.offsets == offsets.push(pc));
                                assert(res.offsets.last() == pc);
                            }
                        }
                    }
                } else {
                    match instr_end(p, pc) {
                        None => {},
                        Some(end) => {
                            if end > p.len() {
                            } else {
                                lemma_scan_offsets(
                                    p,
                                    end,
                                    rem - (end - pc),
                                    procs,
                                    table,
                                    offsets.push(pc),
                                );
                                assert(offsets.push(pc).take(offsets.len() as int) =~= offsets);
                                if res.offsets.len() == offsets.push(pc).len() {
                                    assert(res.offsets.take(res.offsets.len() as int)
                                        =~= res.offsets);
                                    assert(res.offsets == offsets.push(pc));
                                    assert(res.offsets.last() == pc);
                                }
                            }
                        },
                    }
                }
            },
        }
    }
}

/// The procedure table builder and the disassembler, run over the same
/// buffer, agree on the constant-pool start offset, for every buffer whose
/// scan completes.
pub proof fn lemma_boundary_agreement(p: Seq<u8>)
    requires
        scan_program(p) is Done,
    ensures
        builder_boundary(p) == disasm_boundary(p),
        builder_boundary(p) is Some,
{
    lemma_scan_offsets(
        p,
        4,
        0,
        header_count(p),
        Seq::new(header_count(p) as nat, |i: int| None),
        Seq::empty(),
    );
    let ok = scan_program(p)->Done_0;
    if ok.offsets.len() == 0 {
    }
}

/// Append the four hexadecimal digits of a 16-bit immediate's bit pattern.
fn push_hex4u(s: &mut String, v: i16)
    ensures
        final(s)@ == old(s)@ + hex4u(v as int),
{
    proof {
        lemma_byte_modulus();
        crate::word::lemma_unsigned_val(2, v as int);
    }
    let u: u64 = if v >= 0 {
        v as u64
    } else {
        (v as i64 + 0x10000) as u64
    };
    push_hex_fixed(s, u, 4);
}

impl PL0VM {
    /// Render a human-readable trace of every instruction and then every
    /// constant pool entry, deriving the constant-pool boundary by the same
    /// counter discipline as the procedure table builder, independently of
    /// it. Nothing is executed and no interpreter state is touched.
    #[verifier::loop_isolation(false)]
    #[verifier::rlimit(100)]
    pub fn analyze(&self) -> (r: Result<Vec<String>, VmError>)
        requires
            self.wf(),
        ensures
            ({
                let p = self.program@;
                let w = self.bits.width();
                match r {
                    Ok(lines) => {
                        &&& header_count(p) >= 0
                        &&& scan_program(p) matches ScanResult::Done(ok) && {
                            let nc = (p.len() - ok.boundary) / w as int;
                            &&& 4 <= ok.boundary <= p.len()
                            &&& lines@.len() == ok.offsets.len() + nc
                            &&& forall|i: int|
                                0 <= i < ok.offsets.len() ==> (#[trigger] lines@[i])@
                                    == instr_line_spec(p, ok.offsets[i])
                            &&& forall|i: int|
                                0 <= i < nc ==> (#[trigger] lines@[ok.offsets.len() + i])@
                                    == const_line_spec(
                                    w,
                                    i,
                                    word_of_bytes(
                                        w,
                                        p.subrange(ok.boundary + i * w, ok.boundary + i * w + w),
                                    ),
                                )
                        }
                    },
                    Err(e) => {
                        if header_count(p) < 0 {
                            e == VmError::NegativeCount
                        } else {
                            scan_program(p) matches ScanResult::Fail(e2) && e == e2
                        }
                    },
                }
            }),
    {
        let ghost p = self.program@;
        let n = self.program.len();
        let count16 = self.read_arg(0);
        if count16 < 0 {
            return Err(VmError::NegativeCount);
        }
        let count = count16 as usize;
        let ghost table0 = Seq::new(count as nat, |i: int| None::<int>);
        let mut gtable: Ghost<Seq<Option<int>>> = Ghost(table0);
        let mut goffsets: Ghost<Seq<int>> = Ghost(Seq::empty());
        let mut lines: Vec<String> = Vec::new();
        let mut pc: usize = 4;
        let mut rem: i128 = 0;
        let mut procs_rem: usize = count;
        proof {
            assert(table0 =~= Seq::new(header_count(p) as nat, |i: int| None::<int>));
            assert(goffsets@ =~= Seq::<int>::empty());
        }
        while !(rem <= 0 && procs_rem == 0)
            invariant
                self.wf(),
                n == p.len(),
                p == self.program@,
                4 <= pc <= n,
                -40000 - (pc as i128) <= rem <= 40000,
                procs_rem <= count,
                gtable@.len() == count,
                lines@.len() == goffsets@.len(),
                forall|i: int|
                    0 <= i < goffsets@.len() ==> (#[trigger] lines@[i])@ == instr_line_spec(
                        p,
                        goffsets@[i],
                    ),
                scan_from(p, pc as int, rem as int, procs_rem as int, gtable@, goffsets@)
                    == scan_program(p),
            decreases n - pc,
        {
            if pc >= n {
                return Err(VmError::ScanPastEnd);
            }
            let byte = self.program[pc];
            let op = match OpCode::from_byte(byte) {
                Some(op) => op,
                None => {
                    return Err(VmError::UnknownOpcode { offset: pc });
                },
            };
            let mut line = String::new();
            push_hex_fixed(&mut line, (pc - 4) as u64, 4);
            push_str_all(&mut line, ": ");
            push_hex_fixed(&mut line, byte as u64, 2);
            push_str_all(&mut line, " ");
            push_str_all(&mut line, op.mnemonic());
            let is_entry = match op {
                OpCode::EntryProc => true,
                _ => false,
            };
            if is_entry && rem == 0 {
                if n - pc < 7 {
                    return Err(VmError::ScanPastEnd);
                }
                let r1 = self.read_arg(pc + 1);
                let id16 = self.read_arg(pc + 3);
                let fs = self.read_arg(pc + 5);
                if id16 < 0 || id16 as usize >= count {
                    return Err(VmError::BadProcedureId { offset: pc });
                }
                push_str_all(&mut line, " ");
                push_hex4u(&mut line, r1);
                push_str_all(&mut line, ", ");
                push_hex4u(&mut line, id16);
                push_str_all(&mut line, ", ");
                push_hex4u(&mut line, fs);
                push_str_all(&mut line, "  <<< Procedure start");
                proof {
                    assert(line@ =~= instr_line_spec(p, pc as int));
                    gtable@ = gtable@.update(id16 as int, Some(pc as int));
                    goffsets@ = goffsets@.push(pc as int);
                }
                lines.push(line);
                rem = r1 as i128 - 4;
                procs_rem = procs_rem - 1;
                pc = pc + 7;
            } else {
                let end: usize = match op {
                    OpCode::PutString => {
                        let nul = match crate::machine::find_nul(&self.program, pc + 1) {
                            Some(j) => j,
                            None => {
                                return Err(VmError::ScanPastEnd);
                            },
                        };
                        push_str_all(&mut line, " \"");
                        let ghost base = line@;
                        let ghost pay = p.subrange(pc + 1, nul as int);
                        let mut i2: usize = pc + 1;
                        while i2 < nul
                            invariant
                                pc + 1 <= i2 <= nul,
                                nul < n,
                                n == p.len(),
                                p == self.program@,
                                pay == p.subrange(pc + 1, nul as int),
                                line@ =~= base + lossy_chars(pay.take(i2 - (pc + 1))),
                            decreases nul - i2,
                        {
                            let b2 = self.program[i2];
                            line.push(
                                if b2 < 0x80 {
                                    b2 as char
                                } else {
                                    '?'
                                },
                            );
                            i2 = i2 + 1;
                            proof {
                                assert(line@ =~= base + lossy_chars(pay.take(i2 - (pc + 1))));
                            }
                        }
                        push_str_all(&mut line, "\"");
                        proof {
                            assert(pay.take(nul - (pc + 1)) =~= pay);
                        }
                        nul + 1
                    },
                    OpCode::EntryProc => {
                        if n - pc < 7 {
                            return Err(VmError::ScanPastEnd);
                        }
                        let r1 = self.read_arg(pc + 1);
                        let id16 = self.read_arg(pc + 3);
                        let fs = self.read_arg(pc + 5);
                        push_str_all(&mut line, " ");
                        push_hex4u(&mut line, r1);
                        push_str_all(&mut line, ", ");
                        push_hex4u(&mut line, id16);
                        push_str_all(&mut line, ", ");
                        push_hex4u(&mut line, fs);
                        push_str_all(&mut line, "  <<< Procedure start");
                        pc + 7
                    },
                    OpCode::Jump | OpCode::JumpIfFalse => {
                        if n - pc < 3 {
                            return Err(VmError::ScanPastEnd);
                        }
                        let v = self.read_arg(pc + 1);
                        if v < 0 {
                            push_str_all(&mut line, " -");
                            push_hex_fixed(&mut line, (-(v as i64)) as u64, 4);
                        } else {
                            push_str_all(&mut line, " ");
                            push_hex_fixed(&mut line, v as u64, 4);
                        }
                        pc + 3
                    },
                    OpCode::PushValueGlobalVar | OpCode::PushAddressGlobalVar => {
                        if n - pc < 5 {
                            return Err(VmError::ScanPastEnd);
                        }
                        let l = self.read_arg(pc + 1);
                        let o = self.read_arg(pc + 3);
                        push_str_all(&mut line, " ");
                        push_hex4u(&mut line, l);
                        push_str_all(&mut line, ", ");
                        push_hex4u(&mut line, o);
                        pc + 5
                    },
                    OpCode::PushConstant | OpCode::CallProc | OpCode::PushValueLocalVar
                        | OpCode::PushValueMainVar | OpCode::PushAddressLocalVar
                        | OpCode::PushAddressMainVar => {
                        if n - pc < 3 {
                            return Err(VmError::ScanPastEnd);
                        }
                        let v = self.read_arg(pc + 1);
                        push_str_all(&mut line, " ");
                        push_hex4u(&mut line, v);
                        pc + 3
                    },
                    _ => pc + 1,
                };
                proof {
                    assert(line@ =~= instr_line_spec(p, pc as int));
                    goffsets@ = goffsets@.push(pc as int);
                }
                lines.push(line);
                rem = rem - ((end - pc) as i128);
                pc = end;
            }
        }
        let w = self.data_size();
        let boundary = pc;
        let avail = n - boundary;
        let nconsts = avail / w;
        let ghost noffs = goffsets@.len();
        let mut i: usize = 0;
        proof {
            lemma_fundamental_div_mod(avail as int, w as int);
        }
        while i < nconsts
            invariant
                self.wf(),
                p == self.program@,
                n == p.len(),
                w == self.bits.width(),
                boundary + avail == n,
                nconsts == avail as int / w as int,
                nconsts * w <= avail,
                i <= nconsts,
                lines@.len() == noffs + i,
                forall|k: int|
                    0 <= k < noffs ==> (#[trigger] lines@[k])@ == instr_line_spec(p, goffsets@[k]),
                forall|k: int|
                    0 <= k < i ==> (#[trigger] lines@[noffs + k])@ == const_line_spec(
                        w as nat,
                        k,
                        word_of_bytes(w as nat, p.subrange(boundary + k * w, boundary + k * w + w)),
                    ),
            decreases nconsts - i,
        {
            assert(boundary + i * w + w <= n) by (nonlinear_arith)
                requires
                    0 <= i,
                    i + 1 <= nconsts,
                    (nconsts as int) * (w as int) <= avail,
                    boundary + avail == n,
                    w >= 0,
            ;
            let d = self.read_data(boundary + i * w);
            let mut line = String::new();
            push_str_all(&mut line, "Constant ");
            push_dec_fixed(&mut line, i as u64, 4);
            push_str_all(&mut line, ": 0x");
            push_hex_fixed(&mut line, d.unsigned_repr(), 2 * w);
            push_str_all(&mut line, " = ");
            push_dec_i64(&mut line, d.i64());
            proof {
                assert(line@ =~= const_line_spec(w as nat, i as int, d.value()));
            }
            lines.push(line);
            i = i + 1;
        }
        Ok(lines)
    }
}

} // verus!
