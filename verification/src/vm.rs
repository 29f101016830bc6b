//! The program loader: validates the 4-byte header, selects the word model
//! from the architecture marker, and exposes the raw buffer to the two
//! scanning consumers and to the interpreter.

use vstd::prelude::*;
use crate::error::VmError;
use crate::word::{lemma_byte_modulus, word_of_bytes, wrap_val, Data};
use vstd::arithmetic::div_mod::lemma_small_mod;

verus! {

/// The signed 16-bit little-endian immediate stored at byte offset `off`.
pub open spec fn imm_at(p: Seq<u8>, off: int) -> int {
    wrap_val(2, p[off] + 256 * p[off + 1])
}

/// The declared procedure count of the header (bytes 0 and 1).
pub open spec fn header_count(p: Seq<u8>) -> int {
    imm_at(p, 0)
}

/// The architecture marker of the header (bytes 2 and 3).
pub open spec fn header_arch(p: Seq<u8>) -> int {
    imm_at(p, 2)
}

/// The architecture markers the format admits: a word width in bytes.
pub open spec fn arch_valid(a: int) -> bool {
    a == 2 || a == 4 || a == 8
}

/// A loaded program: the immutable byte buffer and the word model selected
/// by its header. The width is fixed for the program's whole lifetime.
pub struct PL0VM {
    pub program: Vec<u8>,
    pub bits: Data,
}

impl PL0VM {
    /// A loaded program is well formed when the buffer holds a full header
    /// whose architecture marker selected the active word model.
    pub open spec fn wf(self) -> bool {
        &&& self.program@.len() >= 4
        &&& arch_valid(header_arch(self.program@))
        &&& self.bits.width() == header_arch(self.program@)
    }

    /// An empty machine over the narrowest word model, with no program.
    pub fn new() -> (r: PL0VM)
        ensures
            r.program@ == Seq::<u8>::empty(),
            r.bits == (Data::B16(0i16)),
    {
        PL0VM { program: Vec::new(), bits: Data::B16(0) }
    }

    /// Load a program from a raw byte buffer: validate that a full header is
    /// present and that the architecture marker names a supported width.
    pub fn from_bytes(bytes: Vec<u8>) -> (r: Result<PL0VM, VmError>)
        ensures
            bytes@.len() < 4 ==> r == Err::<PL0VM, VmError>(VmError::TruncatedHeader),
            bytes@.len() >= 4 && !arch_valid(header_arch(bytes@)) ==> r == Err::<
                PL0VM,
                VmError,
            >(VmError::InvalidArch),
            bytes@.len() >= 4 && arch_valid(header_arch(bytes@)) ==> (r matches Ok(vm)
                && vm.program@ == bytes@ && vm.wf()),
    {
        if bytes.len() < 4 {
            return Err(VmError::TruncatedHeader);
        }
        let arch = read_arg_in(&bytes, 2);
        let bits = match arch {
            2 => Data::B16(0),
            4 => Data::B32(0),
            8 => Data::B64(0),
            _ => {
                return Err(VmError::InvalidArch);
            },
        };
        Ok(PL0VM { program: bytes, bits })
    }

    /// Width in bytes of the configured word model.
    pub fn data_size(&self) -> (n: usize)
        ensures
            n == self.bits.width(),
    {
        self.bits.data_size()
    }

    /// Read the signed 16-bit immediate at byte offset `offset`.
    pub fn read_arg(&self, offset: usize) -> (r: i16)
        requires
            offset + 2 <= self.program@.len(),
        ensures
            r as int == imm_at(self.program@, offset as int),
    {
        read_arg_in(&self.program, offset)
    }

    /// Read the word of the configured width at byte offset `offset`.
    pub fn read_data(&self, offset: usize) -> (r: Data)
        requires
            offset + self.bits.width() <= self.program@.len(),
        ensures
            r.width() == self.bits.width(),
            r.value() == word_of_bytes(
                self.bits.width(),
                self.program@.subrange(offset as int, offset + self.bits.width()),
            ),
    {
        crate::word::word_from_bytes(&self.program, offset, &self.bits)
    }
}

/// Read the signed 16-bit little-endian immediate at `offset` of `buf`.
pub fn read_arg_in(buf: &Vec<u8>, offset: usize) -> (r: i16)
    requires
        offset + 2 <= buf@.len(),
    ensures
        r as int == imm_at(buf@, offset as int),
{
    let n = buf.len();
    assert(offset + 2 <= n);
    let u: u32 = buf[offset] as u32 + 256 * (buf[offset + 1] as u32);
    proof {
        lemma_byte_modulus();
        lemma_small_mod(u as nat, 0x10000);
    }
    if u >= 0x8000 {
        (u as i32 - 0x10000) as i16
    } else {
        u as i16
    }
}

} // verus!
