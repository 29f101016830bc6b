//! The closed instruction set: one variant per opcode, the byte value of
//! each, and the shape of its immediate operands. Every instruction is one
//! opcode byte followed by zero or more 2-byte little-endian signed
//! immediates, except the string literal, whose operand is a null-terminated
//! UTF-8 byte run.

use vstd::prelude::*;

verus! {

#[derive(Clone, Copy, Debug, PartialEq, Eq, Structural)]
pub enum OpCode {
    EndOfCode,
    EntryProc,
    ReturnProc,
    PushConstant,
    PushValueLocalVar,
    PushValueMainVar,
    PushValueGlobalVar,
    PushAddressLocalVar,
    PushAddressMainVar,
    PushAddressGlobalVar,
    StoreValue,
    CallProc,
    Jump,
    JumpIfFalse,
    OutputValue,
    InputToAddr,
    Minusify,
    IsOdd,
    OpAdd,
    OpSubtract,
    OpMultiply,
    OpDivide,
    CompareEq,
    CompareNotEq,
    CompareLT,
    CompareGT,
    CompareLTEq,
    CompareGTEq,
    PutString,
    Pop,
    Swap,
    Put,
    Get,
    OpAddAddr,
}

impl OpCode {
    /// The opcode that a byte of the instruction stream denotes, if any.
    pub open spec fn spec_from_byte(b: u8) -> Option<OpCode> {
        if b == 0x00 {
            Some(OpCode::EndOfCode)
        } else if b == 0x01 {
            Some(OpCode::EntryProc)
        } else if b == 0x02 {
            Some(OpCode::ReturnProc)
        } else if b == 0x03 {
            Some(OpCode::PushConstant)
        } else if b == 0x04 {
            Some(OpCode::PushValueLocalVar)
        } else if b == 0x05 {
            Some(OpCode::PushValueMainVar)
        } else if b == 0x06 {
            Some(OpCode::PushValueGlobalVar)
        } else if b == 0x07 {
            Some(OpCode::PushAddressLocalVar)
        } else if b == 0x08 {
            Some(OpCode::PushAddressMainVar)
        } else if b == 0x09 {
            Some(OpCode::PushAddressGlobalVar)
        } else if b == 0x0A {
            Some(OpCode::StoreValue)
        } else if b == 0x0B {
            Some(OpCode::CallProc)
        } else if b == 0x0C {
            Some(OpCode::Jump)
        } else if b == 0x0D {
            Some(OpCode::JumpIfFalse)
        } else if b == 0x0E {
            Some(OpCode::OutputValue)
        } else if b == 0x0F {
            Some(OpCode::InputToAddr)
        } else if b == 0x10 {
            Some(OpCode::Minusify)
        } else if b == 0x11 {
            Some(OpCode::IsOdd)
        } else if b == 0x12 {
            Some(OpCode::OpAdd)
        } else if b == 0x13 {
            Some(OpCode::OpSubtract)
        } else if b == 0x14 {
            Some(OpCode::OpMultiply)
        } else if b == 0x15 {
            Some(OpCode::OpDivide)
        } else if b == 0x16 {
            Some(OpCode::CompareEq)
        } else if b == 0x17 {
            Some(OpCode::CompareNotEq)
        } else if b == 0x18 {
            Some(OpCode::CompareLT)
        } else if b == 0x19 {
            Some(OpCode::CompareGT)
        } else if b == 0x1A {
            Some(OpCode::CompareLTEq)
        } else if b == 0x1B {
            Some(OpCode::CompareGTEq)
        } else if b == 0x1C {
            Some(OpCode::PutString)
        } else if b == 0x1D {
            Some(OpCode::Pop)
        } else if b == 0x1E {
            Some(OpCode::Swap)
        } else if b == 0x1F {
            Some(OpCode::Put)
        } else if b == 0x20 {
            Some(OpCode::Get)
        } else if b == 0x21 {
            Some(OpCode::OpAddAddr)
        } else {
            None
        }
    }

    pub fn from_byte(b: u8) -> (r: Option<OpCode>)
        ensures
            r == OpCode::spec_from_byte(b),
    {
        if b <= 0x21 {
            Some(
                match b {
                    0x00 => OpCode::EndOfCode,
                    0x01 => OpCode::EntryProc,
                    0x02 => OpCode::ReturnProc,
                    0x03 => OpCode::PushConstant,
                    0x04 => OpCode::PushValueLocalVar,
                    0x05 => OpCode::PushValueMainVar,
                    0x06 => OpCode::PushValueGlobalVar,
                    0x07 => OpCode::PushAddressLocalVar,
                    0x08 => OpCode::PushAddressMainVar,
                    0x09 => OpCode::PushAddressGlobalVar,
                    0x0A => OpCode::StoreValue,
                    0x0B => OpCode::CallProc,
                    0x0C => OpCode::Jump,
                    0x0D => OpCode::JumpIfFalse,
                    0x0E => OpCode::OutputValue,
                    0x0F => OpCode::InputToAddr,
                    0x10 => OpCode::Minusify,
                    0x11 => OpCode::IsOdd,
                    0x12 => OpCode::OpAdd,
                    0x13 => OpCode::OpSubtract,
                    0x14 => OpCode::OpMultiply,
                    0x15 => OpCode::OpDivide,
                    0x16 => OpCode::CompareEq,
                    0x17 => OpCode::CompareNotEq,
                    0x18 => OpCode::CompareLT,
                    0x19 => OpCode::CompareGT,
                    0x1A => OpCode::CompareLTEq,
                    0x1B => OpCode::CompareGTEq,
                    0x1C => OpCode::PutString,
                    0x1D => OpCode::Pop,
                    0x1E => OpCode::Swap,
                    0x1F => OpCode::Put,
                    0x20 => OpCode::Get,
                    _ => OpCode::OpAddAddr,
                },
            )
        } else {
            None
        }
    }

    /// The byte value that encodes this opcode.
    pub open spec fn spec_byte(self) -> u8 {
        match self {
            OpCode::EndOfCode => 0x00,
            OpCode::EntryProc => 0x01,
            OpCode::ReturnProc => 0x02,
            OpCode::PushConstant => 0x03,
            OpCode::PushValueLocalVar => 0x04,
            OpCode::PushValueMainVar => 0x05,
            OpCode::PushValueGlobalVar => 0x06,
            OpCode::PushAddressLocalVar => 0x07,
            OpCode::PushAddressMainVar => 0x08,
            OpCode::PushAddressGlobalVar => 0x09,
            OpCode::StoreValue => 0x0A,
            OpCode::CallProc => 0x0B,
            OpCode::Jump => 0x0C,
            OpCode::JumpIfFalse => 0x0D,
            OpCode::OutputValue => 0x0E,
            OpCode::InputToAddr => 0x0F,
            OpCode::Minusify => 0x10,
            OpCode::IsOdd => 0x11,
            OpCode::OpAdd => 0x12,
            OpCode::OpSubtract => 0x13,
            OpCode::OpMultiply => 0x14,
            OpCode::OpDivide => 0x15,
            OpCode::CompareEq => 0x16,
            OpCode::CompareNotEq => 0x17,
            OpCode::CompareLT => 0x18,
            OpCode::CompareGT => 0x19,
            OpCode::CompareLTEq => 0x1A,
            OpCode::CompareGTEq => 0x1B,
            OpCode::PutString => 0x1C,
            OpCode::Pop => 0x1D,
            OpCode::Swap => 0x1E,
            OpCode::Put => 0x1F,
            OpCode::Get => 0x20,
            OpCode::OpAddAddr => 0x21,
        }
    }

    pub fn byte(self) -> (b: u8)
        ensures
            b == self.spec_byte(),
            OpCode::spec_from_byte(b) == Some(self),
    {
        match self {
            OpCode::EndOfCode => 0x00,
            OpCode::EntryProc => 0x01,
            OpCode::ReturnProc => 0x02,
            OpCode::PushConstant => 0x03,
            OpCode::PushValueLocalVar => 0x04,
            OpCode::PushValueMainVar => 0x05,
            OpCode::PushValueGlobalVar => 0x06,
            OpCode::PushAddressLocalVar => 0x07,
            OpCode::PushAddressMainVar => 0x08,
            OpCode::PushAddressGlobalVar => 0x09,
            OpCode::StoreValue => 0x0A,
            OpCode::CallProc => 0x0B,
            OpCode::Jump => 0x0C,
            OpCode::JumpIfFalse => 0x0D,
            OpCode::OutputValue => 0x0E,
            OpCode::InputToAddr => 0x0F,
            OpCode::Minusify => 0x10,
            OpCode::IsOdd => 0x11,
            OpCode::OpAdd => 0x12,
            OpCode::OpSubtract => 0x13,
            OpCode::OpMultiply => 0x14,
            OpCode::OpDivide => 0x15,
            OpCode::CompareEq => 0x16,
            OpCode::CompareNotEq => 0x17,
            OpCode::CompareLT => 0x18,
            OpCode::CompareGT => 0x19,
            OpCode::CompareLTEq => 0x1A,
            OpCode::CompareGTEq => 0x1B,
            OpCode::PutString => 0x1C,
            OpCode::Pop => 0x1D,
            OpCode::Swap => 0x1E,
            OpCode::Put => 0x1F,
            OpCode::Get => 0x20,
            OpCode::OpAddAddr => 0x21,
        }
    }

    /// Total bytes of immediate operands that follow the opcode byte.
    /// The string literal is not covered here: its length is data-dependent.
    pub open spec fn spec_imm_bytes(self) -> nat {
        match self {
            OpCode::EntryProc => 6,
            OpCode::PushValueGlobalVar => 4,
            OpCode::PushAddressGlobalVar => 4,
            OpCode::PushConstant => 2,
            OpCode::CallProc => 2,
            OpCode::PushValueLocalVar => 2,
            OpCode::PushValueMainVar => 2,
            OpCode::PushAddressLocalVar => 2,
            OpCode::PushAddressMainVar => 2,
            OpCode::Jump => 2,
            OpCode::JumpIfFalse => 2,
            _ => 0,
        }
    }

    pub fn imm_bytes(self) -> (n: usize)
        ensures
            n == self.spec_imm_bytes(),
    {
        match self {
            OpCode::EntryProc => 6,
            OpCode::PushValueGlobalVar => 4,
            OpCode::PushAddressGlobalVar => 4,
            OpCode::PushConstant => 2,
            OpCode::CallProc => 2,
            OpCode::PushValueLocalVar => 2,
            OpCode::PushValueMainVar => 2,
            OpCode::PushAddressLocalVar => 2,
            OpCode::PushAddressMainVar => 2,
            OpCode::Jump => 2,
            OpCode::JumpIfFalse => 2,
            _ => 0,
        }
    }

    /// The mnemonic under which the disassembler renders this opcode.
    pub open spec fn spec_mnemonic(self) -> Seq<char> {
        match self {
            OpCode::EndOfCode => "EndOfCode"@,
            OpCode::EntryProc => "EntryProc"@,
            OpCode::ReturnProc => "ReturnProc"@,
            OpCode::PushConstant => "PushConstant"@,
            OpCode::PushValueLocalVar => "PushValueLocalVar"@,
            OpCode::PushValueMainVar => "PushValueMainVar"@,
            OpCode::PushValueGlobalVar => "PushValueGlobalVar"@,
            OpCode::PushAddressLocalVar => "PushAddressLocalVar"@,
            OpCode::PushAddressMainVar => "PushAddressMainVar"@,
            OpCode::PushAddressGlobalVar => "PushAddressGlobalVar"@,
            OpCode::StoreValue => "StoreValue"@,
            OpCode::CallProc => "CallProc"@,
            OpCode::Jump => "Jump"@,
            OpCode::JumpIfFalse => "JumpIfFalse"@,
            OpCode::OutputValue => "OutputValue"@,
            OpCode::InputToAddr => "InputToAddr"@,
            OpCode::Minusify => "Minusify"@,
            OpCode::IsOdd => "IsOdd"@,
            OpCode::OpAdd => "OpAdd"@,
            OpCode::OpSubtract => "OpSubtract"@,
            OpCode::OpMultiply => "OpMultiply"@,
            OpCode::OpDivide => "OpDivide"@,
            OpCode::CompareEq => "CompareEq"@,
            OpCode::CompareNotEq => "CompareNotEq"@,
            OpCode::CompareLT => "CompareLT"@,
            OpCode::CompareGT => "CompareGT"@,
            OpCode::CompareLTEq => "CompareLTEq"@,
            OpCode::CompareGTEq => "CompareGTEq"@,
            OpCode::PutString => "PutString"@,
            OpCode::Pop => "Pop"@,
            OpCode::Swap => "Swap"@,
            OpCode::Put => "Put"@,
            OpCode::Get => "Get"@,
            OpCode::OpAddAddr => "OpAddAddr"@,
        }
    }

    pub fn mnemonic(self) -> (r: &'static str)
        ensures
            r@ == self.spec_mnemonic(),
    {
        match self {
            OpCode::EndOfCode => "EndOfCode",
            OpCode::EntryProc => "EntryProc",
            OpCode::ReturnProc => "ReturnProc",
            OpCode::PushConstant => "PushConstant",
            OpCode::PushValueLocalVar => "PushValueLocalVar",
            OpCode::PushValueMainVar => "PushValueMainVar",
            OpCode::PushValueGlobalVar => "PushValueGlobalVar",
            OpCode::PushAddressLocalVar => "PushAddressLocalVar",
            OpCode::PushAddressMainVar => "PushAddressMainVar",
            OpCode::PushAddressGlobalVar => "PushAddressGlobalVar",
            OpCode::StoreValue => "StoreValue",
            OpCode::CallProc => "CallProc",
            OpCode::Jump => "Jump",
            OpCode::JumpIfFalse => "JumpIfFalse",
            OpCode::OutputValue => "OutputValue",
            OpCode::InputToAddr => "InputToAddr",
            OpCode::Minusify => "Minusify",
            OpCode::IsOdd => "IsOdd",
            OpCode::OpAdd => "OpAdd",
            OpCode::OpSubtract => "OpSubtract",
            OpCode::OpMultiply => "OpMultiply",
            OpCode::OpDivide => "OpDivide",
            OpCode::CompareEq => "CompareEq",
            OpCode::CompareNotEq => "CompareNotEq",
            OpCode::CompareLT => "CompareLT",
            OpCode::CompareGT => "CompareGT",
            OpCode::CompareLTEq => "CompareLTEq",
            OpCode::CompareGTEq => "CompareGTEq",
            OpCode::PutString => "PutString",
            OpCode::Pop => "Pop",
            OpCode::Swap => "Swap",
            OpCode::Put => "Put",
            OpCode::Get => "Get",
            OpCode::OpAddAddr => "OpAddAddr",
        }
    }
}

} // verus!
