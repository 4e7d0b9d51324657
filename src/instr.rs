use vstd::prelude::*;

verus! {

/// `>`: move the pointer right.
pub const RIGHT: u8 = 62;
/// `<`: move the pointer left.
pub const LEFT: u8 = 60;
/// `+`: increment the current cell.
pub const INC: u8 = 43;
/// `-`: decrement the current cell.
pub const DEC: u8 = 45;
/// `.`: write the current cell.
pub const OUTPUT: u8 = 46;
/// `,`: read one byte into the current cell.
pub const INPUT: u8 = 44;
/// `[`: open a loop.
pub const LOOP_OPEN: u8 = 91;
/// `]`: close a loop.
pub const LOOP_CLOSE: u8 = 93;

/// One decoded program byte. Every byte outside the eight instruction
/// characters decodes to `Skip`, a no-op.
#[derive(Clone, Copy, Debug, PartialEq, Eq, Structural)]
pub enum Instr {
    Right,
    Left,
    Inc,
    Dec,
    Output,
    Input,
    LoopOpen,
    LoopClose,
    Skip,
}

/// The instruction a program byte stands for.
pub open spec fn instr_of(b: u8) -> Instr {
    if b == RIGHT {
        Instr::Right
    } else if b == LEFT {
        Instr::Left
    } else if b == INC {
        Instr::Inc
    } else if b == DEC {
        Instr::Dec
    } else if b == OUTPUT {
        Instr::Output
    } else if b == INPUT {
        Instr::Input
    } else if b == LOOP_OPEN {
        Instr::LoopOpen
    } else if b == LOOP_CLOSE {
        Instr::LoopClose
    } else {
        Instr::Skip
    }
}

/// Decodes one program byte.
pub fn decode(b: u8) -> (r: Instr)
    ensures
        r == instr_of(b),
{
    if b == RIGHT {
        Instr::Right
    } else if b == LEFT {
        Instr::Left
    } else if b == INC {
        Instr::Inc
    } else if b == DEC {
        Instr::Dec
    } else if b == OUTPUT {
        Instr::Output
    } else if b == INPUT {
        Instr::Input
    } else if b == LOOP_OPEN {
        Instr::LoopOpen
    } else if b == LOOP_CLOSE {
        Instr::LoopClose
    } else {
        Instr::Skip
    }
}

} // verus!
