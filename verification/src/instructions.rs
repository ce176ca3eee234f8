//! The instruction set: the opcode assignment and the fixed-width
//! instruction record. Every instruction carries an opcode, a signed
//! operand and an unsigned offset, whether or not it reads them.

use vstd::prelude::*;

verus! {

/// The opcodes, one per assigned number. Numbers outside the
/// assignment are a parse error.
#[derive(Clone, Copy, Debug, PartialEq, Eq, Structural)]
pub enum OpCode {
    NOP,
    LOAD,
    STORE,
    ALLOC,
    FREE,
    PUSH,
    POP,
    JMP,
    JZ,
    JNZ,
    CALL,
    IRET,
    IADD,
    ISUB,
    IMUL,
    IDIV,
    IMOD,
    IEQ,
    ILT,
    ILE,
    IGT,
    IGE,
    IAND,
    IOR,
    IXOR,
    INOT,
    INE,
    SADD,
    PUSHB,
    STOREB,
    LOADA,
    RLOAD,
    RSTORE,
    PUSHSP,
    HALLOC,
    DHALLOC,
    FFCALL,
    ITOA,
    HALT,
}

/// The number assigned to each opcode.
pub open spec fn op_code_value(op: OpCode) -> u32 {
    match op {
        OpCode::NOP => 0x00,
        OpCode::LOAD => 0x01,
        OpCode::STORE => 0x02,
        OpCode::ALLOC => 0x03,
        OpCode::FREE => 0x04,
        OpCode::PUSH => 0x05,
        OpCode::POP => 0x06,
        OpCode::JMP => 0x07,
        OpCode::JZ => 0x08,
        OpCode::JNZ => 0x09,
        OpCode::CALL => 0x0A,
        OpCode::IRET => 0x0B,
        OpCode::IADD => 0x10,
        OpCode::ISUB => 0x11,
        OpCode::IMUL => 0x12,
        OpCode::IDIV => 0x13,
        OpCode::IMOD => 0x14,
        OpCode::IEQ => 0x15,
        OpCode::ILT => 0x16,
        OpCode::ILE => 0x17,
        OpCode::IGT => 0x18,
        OpCode::IGE => 0x19,
        OpCode::IAND => 0x20,
        OpCode::IOR => 0x21,
        OpCode::IXOR => 0x22,
        OpCode::INOT => 0x23,
        OpCode::INE => 0x24,
        OpCode::SADD => 0x30,
        OpCode::PUSHB => 0x40,
        OpCode::STOREB => 0x48,
        OpCode::LOADA => 0x60,
        OpCode::RLOAD => 0x61,
        OpCode::RSTORE => 0x62,
        OpCode::PUSHSP => 0x70,
        OpCode::HALLOC => 0x80,
        OpCode::DHALLOC => 0x81,
        OpCode::FFCALL => 0x90,
        OpCode::ITOA => 0x91,
        OpCode::HALT => 0xFF,
    }
}

impl OpCode {
    /// The opcode assigned to a number, if the number is assigned.
    pub fn from_op_code(op_code: u32) -> (r: Option<OpCode>)
        ensures
            match r {
                Some(op) => op_code_value(op) == op_code,
                None => forall|op: OpCode| op_code_value(op) != op_code,
            },
    {
        match op_code {
            0x00 => Some(OpCode::NOP),
            0x01 => Some(OpCode::LOAD),
            0x02 => Some(OpCode::STORE),
            0x03 => Some(OpCode::ALLOC),
            0x04 => Some(OpCode::FREE),
            0x05 => Some(OpCode::PUSH),
            0x06 => Some(OpCode::POP),
            0x07 => Some(OpCode::JMP),
            0x08 => Some(OpCode::JZ),
            0x09 => Some(OpCode::JNZ),
            0x0A => Some(OpCode::CALL),
            0x0B => Some(OpCode::IRET),
            0x10 => Some(OpCode::IADD),
            0x11 => Some(OpCode::ISUB),
            0x12 => Some(OpCode::IMUL),
            0x13 => Some(OpCode::IDIV),
            0x14 => Some(OpCode::IMOD),
            0x15 => Some(OpCode::IEQ),
            0x16 => Some(OpCode::ILT),
            0x17 => Some(OpCode::ILE),
            0x18 => Some(OpCode::IGT),
            0x19 => Some(OpCode::IGE),
            0x20 => Some(OpCode::IAND),
            0x21 => Some(OpCode::IOR),
            0x22 => Some(OpCode::IXOR),
            0x23 => Some(OpCode::INOT),
            0x24 => Some(OpCode::INE),
            0x30 => Some(OpCode::SADD),
            0x40 => Some(OpCode::PUSHB),
            0x48 => Some(OpCode::STOREB),
            0x60 => Some(OpCode::LOADA),
            0x61 => Some(OpCode::RLOAD),
            0x62 => Some(OpCode::RSTORE),
            0x70 => Some(OpCode::PUSHSP),
            0x80 => Some(OpCode::HALLOC),
            0x81 => Some(OpCode::DHALLOC),
            0x90 => Some(OpCode::FFCALL),
            0x91 => Some(OpCode::ITOA),
            0xFF => Some(OpCode::HALT),
            _ => None,
        }
    }

    /// The number this opcode is assigned.
    pub fn code(&self) -> (r: u32)
        ensures
            r == op_code_value(*self),
    {
        match self {
            OpCode::NOP => 0x00,
            OpCode::LOAD => 0x01,
            OpCode::STORE => 0x02,
            OpCode::ALLOC => 0x03,
            OpCode::FREE => 0x04,
            OpCode::PUSH => 0x05,
            OpCode::POP => 0x06,
            OpCode::JMP => 0x07,
            OpCode::JZ => 0x08,
            OpCode::JNZ => 0x09,
            OpCode::CALL => 0x0A,
            OpCode::IRET => 0x0B,
            OpCode::IADD => 0x10,
            OpCode::ISUB => 0x11,
            OpCode::IMUL => 0x12,
            OpCode::IDIV => 0x13,
            OpCode::IMOD => 0x14,
            OpCode::IEQ => 0x15,
            OpCode::ILT => 0x16,
            OpCode::ILE => 0x17,
            OpCode::IGT => 0x18,
            OpCode::IGE => 0x19,
            OpCode::IAND => 0x20,
            OpCode::IOR => 0x21,
            OpCode::IXOR => 0x22,
            OpCode::INOT => 0x23,
            OpCode::INE => 0x24,
            OpCode::SADD => 0x30,
            OpCode::PUSHB => 0x40,
            OpCode::STOREB => 0x48,
            OpCode::LOADA => 0x60,
            OpCode::RLOAD => 0x61,
            OpCode::RSTORE => 0x62,
            OpCode::PUSHSP => 0x70,
            OpCode::HALLOC => 0x80,
            OpCode::DHALLOC => 0x81,
            OpCode::FFCALL => 0x90,
            OpCode::ITOA => 0x91,
            OpCode::HALT => 0xFF,
        }
    }
}

/// One fixed-width instruction: an opcode, a signed operand and an
/// unsigned offset. Twelve bytes on the wire, big-endian.
#[derive(Clone, Copy, Debug, PartialEq, Eq, Structural)]
pub struct Instruction {
    pub opcode: OpCode,
    pub operand: i32,
    pub offset: u32,
}

impl Instruction {
    /// Builds the record from its three fields.
    pub fn new(opcode: OpCode, operand: i32, offset: u32) -> (r: Instruction)
        ensures
            r == (Instruction { opcode, operand, offset }),
    {
        Instruction { opcode, operand, offset }
    }
}

/// The opcode a mnemonic names, for mnemonics written in capitals.
pub open spec fn mnemonic_op(s: Seq<char>) -> Option<OpCode> {
    if false {
        None
    } else if s == "NOP"@ {
        Some(OpCode::NOP)
    } else if s == "LOAD"@ {
        Some(OpCode::LOAD)
    } else if s == "STORE"@ {
        Some(OpCode::STORE)
    } else if s == "ALLOC"@ {
        Some(OpCode::ALLOC)
    } else if s == "FREE"@ {
        Some(OpCode::FREE)
    } else if s == "PUSH"@ {
        Some(OpCode::PUSH)
    } else if s == "POP"@ {
        Some(OpCode::POP)
    } else if s == "JMP"@ {
        Some(OpCode::JMP)
    } else if s == "JZ"@ {
        Some(OpCode::JZ)
    } else if s == "JNZ"@ {
        Some(OpCode::JNZ)
    } else if s == "CALL"@ {
        Some(OpCode::CALL)
    } else if s == "IRET"@ {
        Some(OpCode::IRET)
    } else if s == "IADD"@ {
        Some(OpCode::IADD)
    } else if s == "ISUB"@ {
        Some(OpCode::ISUB)
    } else if s == "IMUL"@ {
        Some(OpCode::IMUL)
    } else if s == "IDIV"@ {
        Some(OpCode::IDIV)
    } else if s == "IMOD"@ {
        Some(OpCode::IMOD)
    } else if s == "IEQ"@ {
        Some(OpCode::IEQ)
    } else if s == "ILT"@ {
        Some(OpCode::ILT)
    } else if s == "ILE"@ {
        Some(OpCode::ILE)
    } else if s == "IGT"@ {
        Some(OpCode::IGT)
    } else if s == "IGE"@ {
        Some(OpCode::IGE)
    } else if s == "IAND"@ {
        Some(OpCode::IAND)
    } else if s == "IOR"@ {
        Some(OpCode::IOR)
    } else if s == "IXOR"@ {
        Some(OpCode::IXOR)
    } else if s == "INOT"@ {
        Some(OpCode::INOT)
    } else if s == "INE"@ {
        Some(OpCode::INE)
    } else if s == "SADD"@ {
        Some(OpCode::SADD)
    } else if s == "PUSHB"@ {
        Some(OpCode::PUSHB)
    } else if s == "STOREB"@ {
        Some(OpCode::STOREB)
    } else if s == "LOADA"@ {
        Some(OpCode::LOADA)
    } else if s == "RLOAD"@ {
        Some(OpCode::RLOAD)
    } else if s == "RSTORE"@ {
        Some(OpCode::RSTORE)
    } else if s == "PUSHSP"@ {
        Some(OpCode::PUSHSP)
    } else if s == "HALLOC"@ {
        Some(OpCode::HALLOC)
    } else if s == "DHALLOC"@ {
        Some(OpCode::DHALLOC)
    } else if s == "FFCALL"@ {
        Some(OpCode::FFCALL)
    } else if s == "ITOA"@ {
        Some(OpCode::ITOA)
    } else if s == "HALT"@ {
        Some(OpCode::HALT)
    } else {
        None
    }
}

impl OpCode {
    /// The opcode a capitalised mnemonic names, if any does.
    pub fn from_mnemonic(s: &str) -> (r: Option<OpCode>)
        ensures
            r == mnemonic_op(s@),
    {
        if crate::utils::str_eq(s, "NOP") {
            return Some(OpCode::NOP);
        }
        if crate::utils::str_eq(s, "LOAD") {
            return Some(OpCode::LOAD);
        }
        if crate::utils::str_eq(s, "STORE") {
            return Some(OpCode::STORE);
        }
        if crate::utils::str_eq(s, "ALLOC") {
            return Some(OpCode::ALLOC);
        }
        if crate::utils::str_eq(s, "FREE") {
            return Some(OpCode::FREE);
        }
        if crate::utils::str_eq(s, "PUSH") {
            return Some(OpCode::PUSH);
        }
        if crate::utils::str_eq(s, "POP") {
            return Some(OpCode::POP);
        }
        if crate::utils::str_eq(s, "JMP") {
            return Some(OpCode::JMP);
        }
        if crate::utils::str_eq(s, "JZ") {
            return Some(OpCode::JZ);
        }
        if crate::utils::str_eq(s, "JNZ") {
            return Some(OpCode::JNZ);
        }
        if crate::utils::str_eq(s, "CALL") {
            return Some(OpCode::CALL);
        }
        if crate::utils::str_eq(s, "IRET") {
            return Some(OpCode::IRET);
        }
        if crate::utils::str_eq(s, "IADD") {
            return Some(OpCode::IADD);
        }
        if crate::utils::str_eq(s, "ISUB") {
            return Some(OpCode::ISUB);
        }
        if crate::utils::str_eq(s, "IMUL") {
            return Some(OpCode::IMUL);
        }
        if crate::utils::str_eq(s, "IDIV") {
            return Some(OpCode::IDIV);
        }
        if crate::utils::str_eq(s, "IMOD") {
            return Some(OpCode::IMOD);
        }
        if crate::utils::str_eq(s, "IEQ") {
            return Some(OpCode::IEQ);
        }
        if crate::utils::str_eq(s, "ILT") {
            return Some(OpCode::ILT);
        }
        if crate::utils::str_eq(s, "ILE") {
            return Some(OpCode::ILE);
        }
        if crate::utils::str_eq(s, "IGT") {
            return Some(OpCode::IGT);
        }
        if crate::utils::str_eq(s, "IGE") {
            return Some(OpCode::IGE);
        }
        if crate::utils::str_eq(s, "IAND") {
            return Some(OpCode::IAND);
        }
        if crate::utils::str_eq(s, "IOR") {
            return Some(OpCode::IOR);
        }
        if crate::utils::str_eq(s, "IXOR") {
            return Some(OpCode::IXOR);
        }
        if crate::utils::str_eq(s, "INOT") {
            return Some(OpCode::INOT);
        }
        if crate::utils::str_eq(s, "INE") {
            return Some(OpCode::INE);
        }
        if crate::utils::str_eq(s, "SADD") {
            return Some(OpCode::SADD);
        }
        if crate::utils::str_eq(s, "PUSHB") {
            return Some(OpCode::PUSHB);
        }
        if crate::utils::str_eq(s, "STOREB") {
            return Some(OpCode::STOREB);
        }
        if crate::utils::str_eq(s, "LOADA") {
            return Some(OpCode::LOADA);
        }
        if crate::utils::str_eq(s, "RLOAD") {
            return Some(OpCode::RLOAD);
        }
        if crate::utils::str_eq(s, "RSTORE") {
            return Some(OpCode::RSTORE);
        }
        if crate::utils::str_eq(s, "PUSHSP") {
            return Some(OpCode::PUSHSP);
        }
        if crate::utils::str_eq(s, "HALLOC") {
            return Some(OpCode::HALLOC);
        }
        if crate::utils::str_eq(s, "DHALLOC") {
            return Some(OpCode::DHALLOC);
        }
        if crate::utils::str_eq(s, "FFCALL") {
            return Some(OpCode::FFCALL);
        }
        if crate::utils::str_eq(s, "ITOA") {
            return Some(OpCode::ITOA);
        }
        if crate::utils::str_eq(s, "HALT") {
            return Some(OpCode::HALT);
        }
        None
    }
}

} // verus!
