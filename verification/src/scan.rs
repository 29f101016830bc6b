//! The single linear scan over the code segment that both the procedure
//! table builder and the disassembler perform. The format has no explicit
//! section-length field: the code segment ends exactly when the running
//! remaining-byte counter and the procedure counter reach zero together,
//! and everything after that point is the constant pool.
//!
//! An `EntryProc`'s first immediate counts the code bytes of its procedure
//! from just after that counter field itself, so the instruction's own id
//! and frame-size immediates are part of the count.

use vstd::prelude::*;
use crate::error::VmError;
use crate::opcode::OpCode;
use crate::vm::{header_count, imm_at, PL0VM};
use crate::word::{word_of_bytes, Data};
use vstd::arithmetic::div_mod::lemma_fundamental_div_mod;

verus! {

/// Length of the run of non-null bytes starting at `i`, when a null
/// terminator exists at or after `i`.
pub open spec fn nul_run(p: Seq<u8>, i: int) -> Option<nat>
    decreases p.len() - i,
{
    if i < 0 || i >= p.len() {
        None
    } else if p[i] == 0 {
        Some(0nat)
    } else {
        match nul_run(p, i + 1) {
            None => None,
            Some(k) => Some(k + 1),
        }
    }
}

/// The offset one past the end of the instruction that starts at `pc`:
/// one opcode byte, then its immediates, or the null-terminated byte run
/// of a string literal. `None` when the byte is no opcode or the operands
/// would run past the buffer.
pub open spec fn instr_end(p: Seq<u8>, pc: int) -> Option<int>
    recommends
        0 <= pc < p.len(),
{
    match OpCode::spec_from_byte(p[pc]) {
        None => None,
        Some(op) => {
            if op is PutString {
                match nul_run(p, pc + 1) {
                    None => None,
                    Some(k) => Some(pc + 2 + k),
                }
            } else {
                if pc + 1 + op.spec_imm_bytes() <= p.len() {
                    Some(pc + 1 + op.spec_imm_bytes())
                } else {
                    None
                }
            }
        },
    }
}

/// What a completed scan determined: the start of the constant pool, the
/// procedure table (entry offset by id), and the start offset of every
/// instruction of the code segment in order.
pub ghost struct ScanOk {
    pub boundary: int,
    pub table: Seq<Option<int>>,
    pub offsets: Seq<int>,
}

pub ghost enum ScanResult {
    Done(ScanOk),
    Fail(VmError),
}

/// One scan step after another, from `pc`, with `rem` code bytes still
/// owed to the current procedure and `procs` procedures still undeclared.
/// The scan stops exactly when both counters are exhausted; running out of
/// buffer, an unknown opcode byte or an out-of-range procedure id is fatal.
pub open spec fn scan_from(
    p: Seq<u8>,
    pc: int,
    rem: int,
    procs: int,
    table: Seq<Option<int>>,
    offsets: Seq<int>,
) -> ScanResult
    decreases p.len() - pc,
{
    if rem <= 0 && procs == 0 {
        ScanResult::Done(ScanOk { boundary: pc, table, offsets })
    } else if !(0 <= pc < p.len()) {
        ScanResult::Fail(VmError::ScanPastEnd)
    } else {
        match OpCode::spec_from_byte(p[pc]) {
            None => ScanResult::Fail(VmError::UnknownOpcode { offset: pc as usize }),
            Some(op) => {
                if op is EntryProc && rem == 0 {
                    if pc + 7 > p.len() {
                        ScanResult::Fail(VmError::ScanPastEnd)
                    } else {
                        let id = imm_at(p, pc + 3);
                        if !(0 <= id < table.len()) {
                            ScanResult::Fail(VmError::BadProcedureId { offset: pc as usize })
                        } else {
                            scan_from(
                                p,
                                pc + 7,
                                imm_at(p, pc + 1) - 4,
                                procs - 1,
                                table.update(id, Some(pc)),
                                offsets.push(pc),
                            )
                        }
                    }
                } else {
                    match instr_end(p, pc) {
                        None => ScanResult::Fail(VmError::ScanPastEnd),
                        Some(end) => {
                            if end > p.len() {
                                ScanResult::Fail(VmError::ScanPastEnd)
                            } else {
                                scan_from(p, end, rem - (end - pc), procs, table, offsets.push(pc))
                            }
                        },
                    }
                }
            },
        }
    }
}

/// The scan of a whole loaded buffer: starts at the first byte after the
/// header with an empty table of the declared size.
pub open spec fn scan_program(p: Seq<u8>) -> ScanResult
    recommends
        p.len() >= 4,
        header_count(p) >= 0,
{
    scan_from(
        p,
        4,
        0,
        header_count(p),
        Seq::new(header_count(p) as nat, |i: int| None),
        Seq::empty(),
    )
}

/// A recorded table entry is sound: it points at a full `EntryProc`
/// instruction inside the buffer whose id immediate is the entry's own id.
pub open spec fn entry_ok(p: Seq<u8>, e: int, id: int) -> bool {
    &&& 0 <= e
    &&& e + 7 <= p.len()
    &&& OpCode::spec_from_byte(p[e]) == Some(OpCode::EntryProc)
    &&& imm_at(p, e + 3) == id
}

/// A completed scan keeps the table size, records only sound entries, and
/// ends at a boundary inside the buffer.
pub proof fn lemma_scan_done(
    p: Seq<u8>,
    pc: int,
    rem: int,
    procs: int,
    table: Seq<Option<int>>,
    offsets: Seq<int>,
)
    requires
        0 <= pc <= p.len(),
        scan_from(p, pc, rem, procs, table, offsets) is Done,
        forall|j: int|
            0 <= j < table.len() ==> (#[trigger] table[j] matches Some(e) ==> entry_ok(p, e, j)),
    ensures
        ({
            let ok = scan_from(p, pc, rem, procs, table, offsets)->Done_0;
            &&& ok.table.len() == table.len()
            &&& forall|j: int|
                0 <= j < ok.table.len() ==> (#[trigger] ok.table[j] matches Some(e) ==> entry_ok(
                    p,
                    e,
                    j,
                ))
            &&& pc <= ok.boundary <= p.len()
        }),
    decreases p.len() - pc,
{
    if rem <= 0 && procs == 0 {
    } else if !(0 <= pc < p.len()) {
    } else {
        match OpCode::spec_from_byte(p[pc]) {
            None => {},
            Some(op) => {
                if op is EntryProc && rem == 0 {
                    if pc + 7 > p.len() {
                    } else {
                        let id = imm_at(p, pc + 3);
                        if !(0 <= id < table.len()) {
                        } else {
                            let t2 = table.update(id, Some(pc));
                            assert(forall|j: int|
                                0 <= j < t2.len() ==> (#[trigger] t2[j] matches Some(e)
                                    ==> entry_ok(p, e, j)));
                            lemma_scan_done(
                                p,
                                pc + 7,
                                imm_at(p, pc + 1) - 4,
                                procs - 1,
                                t2,
                                offsets.push(pc),
                            );
                        }
                    }
                } else {
                    match instr_end(p, pc) {
                        None => {},
                        Some(end) => {
                            if end > p.len() {
                            } else {
                                lemma_scan_done(
                                    p,
                                    end,
                                    rem - (end - pc),
                                    procs,
                                    table,
                                    offsets.push(pc),
                                );
                            }
                        },
                    }
                }
            },
        }
    }
}

/// When a null byte sits at `j` and none sits before it, the run length
/// from `i` is exactly `j - i`.
pub proof fn lemma_nul_run_found(p: Seq<u8>, i: int, j: int)
    requires
        0 <= i <= j < p.len(),
        p[j] == 0,
        forall|m: int| i <= m < j ==> p[m] != 0,
    ensures
        nul_run(p, i) == Some((j - i) as nat),
    decreases j - i,
{
    if i == j {
    } else {
        lemma_nul_run_found(p, i + 1, j);
    }
}

/// With no null byte at or after `i`, there is no run.
pub proof fn lemma_nul_run_none(p: Seq<u8>, i: int)
    requires
        forall|m: int| i <= m < p.len() ==> p[m] != 0,
    ensures
        nul_run(p, i) is None,
    decreases p.len() - i,
{
    if 0 <= i < p.len() {
        lemma_nul_run_none(p, i + 1);
    }
}

impl PL0VM {
    /// One forward scan of the whole code segment: record where every
    /// declared procedure starts, then decode the constant pool that begins
    /// at the derived boundary. Exactly the declared number of procedures
    /// must be found, each with an in-range id.
    #[verifier::loop_isolation(false)]
    pub fn load_data(&self) -> (r: Result<(Vec<usize>, Vec<Data>), VmError>)
        requires
            self.wf(),
        ensures
            ({
                let p = self.program@;
                let w = self.bits.width();
                match r {
                    Ok((procs, consts)) => {
                        &&& header_count(p) >= 0
                        &&& scan_program(p) matches ScanResult::Done(ok) && {
                            &&& procs@.len() == ok.table.len()
                            &&& forall|j: int|
                                0 <= j < procs@.len() ==> ok.table[j] == Some(procs@[j] as int)
                            &&& forall|j: int|
                                0 <= j < procs@.len() ==> entry_ok(
                                    p,
                                    (#[trigger] procs@[j]) as int,
                                    j,
                                )
                            &&& 4 <= ok.boundary <= p.len()
                            &&& consts@.len() == (p.len() - ok.boundary) / w as int
                            &&& forall|i: int|
                                0 <= i < consts@.len() ==> (#[trigger] consts@[i]).width() == w
                                    && consts@[i].value() == word_of_bytes(
                                    w,
                                    p.subrange(ok.boundary + i * w, ok.boundary + i * w + w),
                                )
                        }
                    },
                    Err(e) => {
                        if header_count(p) < 0 {
                            e == VmError::NegativeCount
                        } else {
                            match scan_program(p) {
                                ScanResult::Fail(e2) => e == e2,
                                ScanResult::Done(ok) => e matches VmError::MissingProcedure {
                                    id,
                                } && 0 <= id < ok.table.len() && ok.table[id as int] is None
                                    && forall|j: int| 0 <= j < id ==> ok.table[j] is Some,
                            }
                        }
                    },
                }
            }),
    {
        let ghost p = self.program@;
        let n = self.program.len();
        let count16 = self.read_arg(0);
        if count16 < 0 {
            return Err(VmError::NegativeCount);
        }
        let count = count16 as usize;
        let mut table: Vec<Option<usize>> = vec![None; count];
        let ghost table0 = Seq::new(count as nat, |i: int| None::<int>);
        let mut gtable: Ghost<Seq<Option<int>>> = Ghost(table0);
        let mut goffsets: Ghost<Seq<int>> = Ghost(Seq::empty());
        let mut pc: usize = 4;
        let mut rem: i128 = 0;
        let mut procs_rem: usize = count;
        proof {
            assert(table0 =~= Seq::new(header_count(p) as nat, |i: int| None::<int>));
            assert(goffsets@ =~= Seq::<int>::empty());
        }
        while !(rem <= 0 && procs_rem == 0)
            invariant
                self.wf(),
                n == p.len(),
                p == self.program@,
                4 <= pc <= n,
                -40000 - (pc as i128) <= rem <= 40000,
                procs_rem <= count,
                table@.len() == count,
                gtable@.len() == count,
                forall|j: int|
                    0 <= j < count ==> #[trigger] gtable@[j] == (match table@[j] {
                        Some(e) => Some(e as int),
                        None => None,
                    }),
                forall|j: int|
                    0 <= j < count ==> (#[trigger] gtable@[j] matches Some(e) ==> entry_ok(
                        p,
                        e,
                        j,
                    )),
                scan_from(p, pc as int, rem as int, procs_rem as int, gtable@, goffsets@)
                    == scan_program(p),
            decreases n - pc,
        {
            if pc >= n {
                return Err(VmError::ScanPastEnd);
            }
            let byte = self.program[pc];
            let op = match OpCode::from_byte(byte) {
                Some(op) => op,
                None => {
                    return Err(VmError::UnknownOpcode { offset: pc });
                },
            };
            let is_entry = match op {
                OpCode::EntryProc => true,
                _ => false,
            };
            if is_entry && rem == 0 {
                if n - pc < 7 {
                    return Err(VmError::ScanPastEnd);
                }
                let id16 = self.read_arg(pc + 3);
                if id16 < 0 || id16 as usize >= count {
                    return Err(VmError::BadProcedureId { offset: pc });
                }
                let id = id16 as usize;
                let r1 = self.read_arg(pc + 1);
                table[id] = Some(pc);
                proof {
                    gtable@ = gtable@.update(id as int, Some(pc as int));
                    goffsets@ = goffsets@.push(pc as int);
                }
                rem = r1 as i128 - 4;
                procs_rem = procs_rem - 1;
                pc = pc + 7;
            } else {
                let end: usize = match op {
                    OpCode::PutString => {
                        let mut j: usize = pc + 1;
                        let mut found = false;
                        while !found
                            invariant
                                pc + 1 <= j <= n,
                                n == p.len(),
                                p == self.program@,
                                found ==> (j < n && p[j as int] == 0),
                                forall|m: int| pc + 1 <= m < j ==> p[m] != 0,
                            decreases n - j + (if found {
                                0int
                            } else {
                                1int
                            }),
                        {
                            if j >= n {
                                proof {
                                    lemma_nul_run_none(p, pc + 1);
                                }
                                return Err(VmError::ScanPastEnd);
                            }
                            if self.program[j] == 0 {
                                found = true;
                            } else {
                                j = j + 1;
                            }
                        }
                        proof {
                            lemma_nul_run_found(p, pc + 1, j as int);
                        }
                        j + 1
                    },
                    _ => {
                        let imm = op.imm_bytes();
                        if n - pc < 1 + imm {
                            return Err(VmError::ScanPastEnd);
                        }
                        pc + 1 + imm
                    },
                };
                proof {
                    goffsets@ = goffsets@.push(pc as int);
                }
                rem = rem - ((end - pc) as i128);
                pc = end;
            }
        }
        proof {
            lemma_scan_done(p, pc as int, rem as int, procs_rem as int, gtable@, goffsets@);
        }
        let boundary = pc;
        let mut procs: Vec<usize> = Vec::new();
        let mut j: usize = 0;
        while j < count
            invariant
                j <= count,
                table@.len() == count,
                gtable@.len() == count,
                procs@.len() == j,
                forall|i: int|
                    0 <= i < count ==> #[trigger] gtable@[i] == (match table@[i] {
                        Some(e) => Some(e as int),
                        None => None,
                    }),
                forall|i: int| 0 <= i < j ==> #[trigger] gtable@[i] == Some(procs@[i] as int),
            decreases count - j,
        {
            match table[j] {
                Some(e) => procs.push(e),
                None => {
                    return Err(VmError::MissingProcedure { id: j });
                },
            }
            j = j + 1;
        }
        let w = self.data_size();
        let avail = n - boundary;
        let nconsts = avail / w;
        let mut consts: Vec<Data> = Vec::new();
        let mut i: usize = 0;
        proof {
            lemma_fundamental_div_mod(avail as int, w as int);
        }
        while i < nconsts
            invariant
                self.wf(),
                p == self.program@,
                n == p.len(),
                w == self.bits.width(),
                boundary + avail == n,
                nconsts == avail as int / w as int,
                nconsts * w <= avail,
                i <= nconsts,
                consts@.len() == i,
                forall|k: int|
                    0 <= k < i ==> (#[trigger] consts@[k]).width() == w && consts@[k].value()
                        == word_of_bytes(
                        w as nat,
                        p.subrange(boundary + k * w, boundary + k * w + w),
                    ),
            decreases nconsts - i,
        {
            assert(boundary + i * w + w <= n) by (nonlinear_arith)
                requires
                    0 <= i,
                    i + 1 <= nconsts,
                    (nconsts as int) * (w as int) <= avail,
                    boundary + avail == n,
                    w >= 0,
            ;
            consts.push(self.read_data(boundary + i * w));
            i = i + 1;
        }
        proof {
            assert forall|k: int| 0 <= k < procs@.len() implies entry_ok(
                p,
                (procs@[k]) as int,
                k,
            ) by {
                assert(gtable@[k] == Some(procs@[k] as int));
            };
        }
        Ok((procs, consts))
    }
}

} // verus!
