use vstd::prelude::*;

verus! {

/// Identifier of one of the 16 general-purpose registers.
///
/// The ordinal of each register is both its index into the register file and
/// its one-byte image on the wire; bytes outside 0..=15 name no register and
/// are rejected by [`Reg::from_u8`].
#[derive(Clone, Copy, Debug, PartialEq, Eq, Structural)]
pub enum Reg {
    R0,
    R1,
    R2,
    R3,
    R4,
    R5,
    R6,
    R7,
    R8,
    R9,
    R10,
    R11,
    R12,
    R13,
    R14,
    R15,
}

impl Reg {
    /// Ordinal of the register, 0 through 15.
    pub open spec fn ordinal(self) -> int {
        match self {
            Reg::R0 => 0,
            Reg::R1 => 1,
            Reg::R2 => 2,
            Reg::R3 => 3,
            Reg::R4 => 4,
            Reg::R5 => 5,
            Reg::R6 => 6,
            Reg::R7 => 7,
            Reg::R8 => 8,
            Reg::R9 => 9,
            Reg::R10 => 10,
            Reg::R11 => 11,
            Reg::R12 => 12,
            Reg::R13 => 13,
            Reg::R14 => 14,
            Reg::R15 => 15,
        }
    }

    /// The register with the given ordinal, for ordinals 0 through 15.
    pub open spec fn spec_from_ordinal(n: int) -> Option<Reg> {
        if n == 0 {
            Some(Reg::R0)
        } else if n == 1 {
            Some(Reg::R1)
        } else if n == 2 {
            Some(Reg::R2)
        } else if n == 3 {
            Some(Reg::R3)
        } else if n == 4 {
            Some(Reg::R4)
        } else if n == 5 {
            Some(Reg::R5)
        } else if n == 6 {
            Some(Reg::R6)
        } else if n == 7 {
            Some(Reg::R7)
        } else if n == 8 {
            Some(Reg::R8)
        } else if n == 9 {
            Some(Reg::R9)
        } else if n == 10 {
            Some(Reg::R10)
        } else if n == 11 {
            Some(Reg::R11)
        } else if n == 12 {
            Some(Reg::R12)
        } else if n == 13 {
            Some(Reg::R13)
        } else if n == 14 {
            Some(Reg::R14)
        } else if n == 15 {
            Some(Reg::R15)
        } else {
            None
        }
    }

    /// Serializes the register as its ordinal byte.
    pub fn to_u8(self) -> (r: u8)
        ensures
            r == self.ordinal(),
            r < 16,
    {
        match self {
            Reg::R0 => 0,
            Reg::R1 => 1,
            Reg::R2 => 2,
            Reg::R3 => 3,
            Reg::R4 => 4,
            Reg::R5 => 5,
            Reg::R6 => 6,
            Reg::R7 => 7,
            Reg::R8 => 8,
            Reg::R9 => 9,
            Reg::R10 => 10,
            Reg::R11 => 11,
            Reg::R12 => 12,
            Reg::R13 => 13,
            Reg::R14 => 14,
            Reg::R15 => 15,
        }
    }

    /// Reads a register from its ordinal byte; bytes 16 and above name no
    /// register and yield `None`.
    pub fn from_u8(value: u8) -> (r: Option<Reg>)
        ensures
            r == Reg::spec_from_ordinal(value as int),
    {
        match value {
            0 => Some(Reg::R0),
            1 => Some(Reg::R1),
            2 => Some(Reg::R2),
            3 => Some(Reg::R3),
            4 => Some(Reg::R4),
            5 => Some(Reg::R5),
            6 => Some(Reg::R6),
            7 => Some(Reg::R7),
            8 => Some(Reg::R8),
            9 => Some(Reg::R9),
            10 => Some(Reg::R10),
            11 => Some(Reg::R11),
            12 => Some(Reg::R12),
            13 => Some(Reg::R13),
            14 => Some(Reg::R14),
            15 => Some(Reg::R15),
            _ => None,
        }
    }
}

/// Every register is recovered from its own ordinal: the byte mapping is a
/// bijection between the 16 registers and the bytes 0 through 15.
pub proof fn lemma_reg_ordinal_roundtrip(r: Reg)
    ensures
        Reg::spec_from_ordinal(r.ordinal()) == Some(r),
        0 <= r.ordinal() < 16,
{
}

} // verus!
