//! The fixed bit-code tables of the compute instruction: 28 computation
//! mnemonics (7 bits), 8 destination selectors (3 bits) and 8 jump
//! conditions (3 bits).

use vstd::prelude::*;

verus! {

/// The 7-bit code of a one-character computation mnemonic.
pub open spec fn spec_comp_code_1(a: u8) -> Option<u16> {
    if a == '0' as u8 {
        Some(0b0101010u16)
    } else if a == '1' as u8 {
        Some(0b0111111u16)
    } else if a == 'D' as u8 {
        Some(0b0001100u16)
    } else if a == 'A' as u8 {
        Some(0b0110000u16)
    } else if a == 'M' as u8 {
        Some(0b1110000u16)
    } else {
        None
    }
}

/// The 7-bit code of a two-character computation mnemonic.
pub open spec fn spec_comp_code_2(a: u8, b: u8) -> Option<u16> {
    if a == '-' as u8 && b == '1' as u8 {
        Some(0b0111010u16)
    } else if a == '!' as u8 && b == 'D' as u8 {
        Some(0b0001101u16)
    } else if a == '!' as u8 && b == 'A' as u8 {
        Some(0b0110001u16)
    } else if a == '!' as u8 && b == 'M' as u8 {
        Some(0b1110001u16)
    } else if a == '-' as u8 && b == 'D' as u8 {
        Some(0b0001111u16)
    } else if a == '-' as u8 && b == 'A' as u8 {
        Some(0b0110011u16)
    } else if a == '-' as u8 && b == 'M' as u8 {
        Some(0b1110011u16)
    } else {
        None
    }
}

/// The 7-bit code of a three-character computation mnemonic.
pub open spec fn spec_comp_code_3(a: u8, b: u8, c: u8) -> Option<u16> {
    if a == 'D' as u8 && b == '+' as u8 && c == '1' as u8 {
        Some(0b0011111u16)
    } else if a == 'A' as u8 && b == '+' as u8 && c == '1' as u8 {
        Some(0b0110111u16)
    } else if a == 'M' as u8 && b == '+' as u8 && c == '1' as u8 {
        Some(0b1110111u16)
    } else if a == 'D' as u8 && b == '-' as u8 && c == '1' as u8 {
        Some(0b0001110u16)
    } else if a == 'A' as u8 && b == '-' as u8 && c == '1' as u8 {
        Some(0b0110010u16)
    } else if a == 'M' as u8 && b == '-' as u8 && c == '1' as u8 {
        Some(0b1110010u16)
    } else if a == 'D' as u8 && b == '+' as u8 && c == 'A' as u8 {
        Some(0b0000010u16)
    } else if a == 'D' as u8 && b == '+' as u8 && c == 'M' as u8 {
        Some(0b1000010u16)
    } else if a == 'D' as u8 && b == '-' as u8 && c == 'A' as u8 {
        Some(0b0010011u16)
    } else if a == 'D' as u8 && b == '-' as u8 && c == 'M' as u8 {
        Some(0b1010011u16)
    } else if a == 'A' as u8 && b == '-' as u8 && c == 'D' as u8 {
        Some(0b0000111u16)
    } else if a == 'M' as u8 && b == '-' as u8 && c == 'D' as u8 {
        Some(0b1000111u16)
    } else if a == 'D' as u8 && b == '&' as u8 && c == 'A' as u8 {
        Some(0b0000000u16)
    } else if a == 'D' as u8 && b == '&' as u8 && c == 'M' as u8 {
        Some(0b1000000u16)
    } else if a == 'D' as u8 && b == '|' as u8 && c == 'A' as u8 {
        Some(0b0010101u16)
    } else if a == 'D' as u8 && b == '|' as u8 && c == 'M' as u8 {
        Some(0b1010101u16)
    } else {
        None
    }
}

/// The 7-bit code of a computation mnemonic, `None` for any string outside
/// the fixed 28-entry table.
pub open spec fn spec_comp_code(s: Seq<u8>) -> Option<u16> {
    if s.len() == 1 {
        spec_comp_code_1(s[0])
    } else if s.len() == 2 {
        spec_comp_code_2(s[0], s[1])
    } else if s.len() == 3 {
        spec_comp_code_3(s[0], s[1], s[2])
    } else {
        None
    }
}

/// Looks a computation mnemonic up in the fixed table.
pub fn comp_code(s: &[u8]) -> (r: Option<u16>)
    ensures
        r == spec_comp_code(s@),
{
    if s.len() == 1 {
        comp_code_1(s[0])
    } else if s.len() == 2 {
        comp_code_2(s[0], s[1])
    } else if s.len() == 3 {
        comp_code_3(s[0], s[1], s[2])
    } else {
        None
    }
}

fn comp_code_1(a: u8) -> (r: Option<u16>)
    ensures
        r == spec_comp_code_1(a),
{
    if a == '0' as u8 {
        Some(0b0101010u16)
    } else if a == '1' as u8 {
        Some(0b0111111u16)
    } else if a == 'D' as u8 {
        Some(0b0001100u16)
    } else if a == 'A' as u8 {
        Some(0b0110000u16)
    } else if a == 'M' as u8 {
        Some(0b1110000u16)
    } else {
        None
    }
}

fn comp_code_2(a: u8, b: u8) -> (r: Option<u16>)
    ensures
        r == spec_comp_code_2(a, b),
{
    if a == '-' as u8 && b == '1' as u8 {
        Some(0b0111010u16)
    } else if a == '!' as u8 && b == 'D' as u8 {
        Some(0b0001101u16)
    } else if a == '!' as u8 && b == 'A' as u8 {
        Some(0b0110001u16)
    } else if a == '!' as u8 && b == 'M' as u8 {
        Some(0b1110001u16)
    } else if a == '-' as u8 && b == 'D' as u8 {
        Some(0b0001111u16)
    } else if a == '-' as u8 && b == 'A' as u8 {
        Some(0b0110011u16)
    } else if a == '-' as u8 && b == 'M' as u8 {
        Some(0b1110011u16)
    } else {
        None
    }
}

fn comp_code_3(a: u8, b: u8, c: u8) -> (r: Option<u16>)
    ensures
        r == spec_comp_code_3(a, b, c),
{
    if a == 'D' as u8 && b == '+' as u8 && c == '1' as u8 {
        Some(0b0011111u16)
    } else if a == 'A' as u8 && b == '+' as u8 && c == '1' as u8 {
        Some(0b0110111u16)
    } else if a == 'M' as u8 && b == '+' as u8 && c == '1' as u8 {
        Some(0b1110111u16)
    } else if a == 'D' as u8 && b == '-' as u8 && c == '1' as u8 {
        Some(0b0001110u16)
    } else if a == 'A' as u8 && b == '-' as u8 && c == '1' as u8 {
        Some(0b0110010u16)
    } else if a == 'M' as u8 && b == '-' as u8 && c == '1' as u8 {
        Some(0b1110010u16)
    } else if a == 'D' as u8 && b == '+' as u8 && c == 'A' as u8 {
        Some(0b0000010u16)
    } else if a == 'D' as u8 && b == '+' as u8 && c == 'M' as u8 {
        Some(0b1000010u16)
    } else if a == 'D' as u8 && b == '-' as u8 && c == 'A' as u8 {
        Some(0b0010011u16)
    } else if a == 'D' as u8 && b == '-' as u8 && c == 'M' as u8 {
        Some(0b1010011u16)
    } else if a == 'A' as u8 && b == '-' as u8 && c == 'D' as u8 {
        Some(0b0000111u16)
    } else if a == 'M' as u8 && b == '-' as u8 && c == 'D' as u8 {
        Some(0b1000111u16)
    } else if a == 'D' as u8 && b == '&' as u8 && c == 'A' as u8 {
        Some(0b0000000u16)
    } else if a == 'D' as u8 && b == '&' as u8 && c == 'M' as u8 {
        Some(0b1000000u16)
    } else if a == 'D' as u8 && b == '|' as u8 && c == 'A' as u8 {
        Some(0b0010101u16)
    } else if a == 'D' as u8 && b == '|' as u8 && c == 'M' as u8 {
        Some(0b1010101u16)
    } else {
        None
    }
}

/// The 3-bit code of a destination selector, `None` for any string outside
/// the fixed 8-entry table. The all-zero selector also has the spelled-out
/// name `null`.
pub open spec fn spec_dest_code(s: Seq<u8>) -> Option<u16> {
    if s.len() == 1 {
        if s[0] == 'M' as u8 {
            Some(0b001u16)
        } else if s[0] == 'D' as u8 {
            Some(0b010u16)
        } else if s[0] == 'A' as u8 {
            Some(0b100u16)
        } else {
            None
        }
    } else if s.len() == 2 {
        if s[0] == 'M' as u8 && s[1] == 'D' as u8 {
            Some(0b011u16)
        } else if s[0] == 'A' as u8 && s[1] == 'M' as u8 {
            Some(0b101u16)
        } else if s[0] == 'A' as u8 && s[1] == 'D' as u8 {
            Some(0b110u16)
        } else {
            None
        }
    } else if s.len() == 3 {
        if s[0] == 'A' as u8 && s[1] == 'M' as u8 && s[2] == 'D' as u8 {
            Some(0b111u16)
        } else {
            None
        }
    } else if s.len() == 4 {
        if s[0] == 'n' as u8 && s[1] == 'u' as u8 && s[2] == 'l' as u8 && s[3] == 'l' as u8 {
            Some(0b000u16)
        } else {
            None
        }
    } else {
        None
    }
}

/// Looks a destination selector up in the fixed table.
pub fn dest_code(s: &[u8]) -> (r: Option<u16>)
    ensures
        r == spec_dest_code(s@),
{
    if s.len() == 1 {
        if s[0] == 'M' as u8 {
            Some(0b001u16)
        } else if s[0] == 'D' as u8 {
            Some(0b010u16)
        } else if s[0] == 'A' as u8 {
            Some(0b100u16)
        } else {
            None
        }
    } else if s.len() == 2 {
        if s[0] == 'M' as u8 && s[1] == 'D' as u8 {
            Some(0b011u16)
        } else if s[0] == 'A' as u8 && s[1] == 'M' as u8 {
            Some(0b101u16)
        } else if s[0] == 'A' as u8 && s[1] == 'D' as u8 {
            Some(0b110u16)
        } else {
            None
        }
    } else if s.len() == 3 {
        if s[0] == 'A' as u8 && s[1] == 'M' as u8 && s[2] == 'D' as u8 {
            Some(0b111u16)
        } else {
            None
        }
    } else if s.len() == 4 {
        if s[0] == 'n' as u8 && s[1] == 'u' as u8 && s[2] == 'l' as u8 && s[3] == 'l' as u8 {
            Some(0b000u16)
        } else {
            None
        }
    } else {
        None
    }
}

/// The 3-bit code of a jump condition, `None` for any string outside the
/// fixed 8-entry table. The all-zero condition also has the spelled-out
/// name `null`.
pub open spec fn spec_jump_code(s: Seq<u8>) -> Option<u16> {
    if s.len() == 3 && s[0] == 'J' as u8 {
        if s[1] == 'G' as u8 && s[2] == 'T' as u8 {
            Some(0b001u16)
        } else if s[1] == 'E' as u8 && s[2] == 'Q' as u8 {
            Some(0b010u16)
        } else if s[1] == 'G' as u8 && s[2] == 'E' as u8 {
            Some(0b011u16)
        } else if s[1] == 'L' as u8 && s[2] == 'T' as u8 {
            Some(0b100u16)
        } else if s[1] == 'N' as u8 && s[2] == 'E' as u8 {
            Some(0b101u16)
        } else if s[1] == 'L' as u8 && s[2] == 'E' as u8 {
            Some(0b110u16)
        } else if s[1] == 'M' as u8 && s[2] == 'P' as u8 {
            Some(0b111u16)
        } else {
            None
        }
    } else if s.len() == 4 && s[0] == 'n' as u8 && s[1] == 'u' as u8 && s[2] == 'l' as u8 && s[3]
        == 'l' as u8 {
        Some(0b000u16)
    } else {
        None
    }
}

/// Looks a jump condition up in the fixed table.
pub fn jump_code(s: &[u8]) -> (r: Option<u16>)
    ensures
        r == spec_jump_code(s@),
{
    if s.len() == 3 && s[0] == 'J' as u8 {
        if s[1] == 'G' as u8 && s[2] == 'T' as u8 {
            Some(0b001u16)
        } else if s[1] == 'E' as u8 && s[2] == 'Q' as u8 {
            Some(0b010u16)
        } else if s[1] == 'G' as u8 && s[2] == 'E' as u8 {
            Some(0b011u16)
        } else if s[1] == 'L' as u8 && s[2] == 'T' as u8 {
            Some(0b100u16)
        } else if s[1] == 'N' as u8 && s[2] == 'E' as u8 {
            Some(0b101u16)
        } else if s[1] == 'L' as u8 && s[2] == 'E' as u8 {
            Some(0b110u16)
        } else if s[1] == 'M' as u8 && s[2] == 'P' as u8 {
            Some(0b111u16)
        } else {
            None
        }
    } else if s.len() == 4 && s[0] == 'n' as u8 && s[1] == 'u' as u8 && s[2] == 'l' as u8 && s[3]
        == 'l' as u8 {
        Some(0b000u16)
    } else {
        None
    }
}

} // verus!
