//! The structured assembly listing: directives, labels and instructions, with
//! the fixed frame around every program and the lines of each command.

use vstd::prelude::*;
use crate::command::Command;

verus! {

/// Largest pointer displacement that one instruction carries (a signed 32-bit immediate).
pub const MAX_MOVE: u32 = 0x7fff_ffff;

/// The two byte-oriented I/O routines that the program links against.
#[derive(PartialEq, Eq, Structural, Clone, Copy, Debug)]
pub enum Primitive {
    ReadByte,
    WriteByte,
}

/// A jump target.
#[derive(PartialEq, Eq, Structural, Clone, Copy, Debug)]
pub enum Label {
    /// The program's entry point.
    Entry,
    /// Head of the loop that clears the tape.
    ZeroFill,
    /// A loop label issued by the allocator; a loop's exit is its id plus one.
    Loop(u64),
}

/// One machine instruction of the listing.
#[derive(PartialEq, Eq, Structural, Clone, Copy, Debug)]
pub enum Instr {
    /// Saves the caller's frame register.
    PushFrame,
    /// Reserves the tape on the stack.
    ReserveTape,
    /// Points the tape pointer at the base of the tape.
    SetBase,
    /// Clears the index used to zero the tape.
    ClearIndex,
    /// Zeroes the eight tape bytes at the index.
    ZeroWord,
    /// Advances the index by eight bytes.
    AdvanceIndex,
    /// Compares the index with the tape size.
    CompareIndex,
    /// Repeats the zeroing until the whole tape is cleared.
    RepeatZeroFill,
    /// Moves the pointer right by the given number of cells.
    MoveRight(u32),
    /// Moves the pointer left by the given number of cells.
    MoveLeft(u32),
    /// Adds to the current cell, modulo 256.
    AddCell(u8),
    /// Subtracts from the current cell, modulo 256.
    SubCell(u8),
    /// Loads the current cell into the test register.
    LoadTest,
    /// Sets the zero flag from the test register.
    TestZero,
    /// Jumps to the loop label when the zero flag is set.
    JumpIfZero(u64),
    /// Jumps to the loop label.
    Jump(u64),
    /// Loads the current cell, zero-extended, into the argument register.
    LoadArg,
    /// Loads a newline byte into the argument register.
    LoadNewline,
    /// Calls the primitive.
    Call(Primitive),
    /// Stores the low byte of the result register into the current cell.
    StoreResult,
    /// Releases the tape.
    ReleaseTape,
    /// Restores the caller's frame register.
    PopFrame,
    /// Returns to the caller.
    Return,
}

/// One line of the listing.
#[derive(PartialEq, Eq, Structural, Clone, Copy, Debug)]
pub enum Line {
    /// Opens the text section.
    Section,
    /// Declares a primitive as defined elsewhere, resolved at link time.
    Import(Primitive),
    /// Declares the entry point global.
    Export,
    /// A label declaration.
    Label(Label),
    /// An indented instruction.
    Instr(Instr),
}

/// Everything before the compiled commands: declarations, the frame, a
/// zeroed tape and the pointer at its base.
pub open spec fn prologue() -> Seq<Line> {
    seq![
        Line::Section,
        Line::Import(Primitive::WriteByte),
        Line::Import(Primitive::ReadByte),
        Line::Export,
        Line::Label(Label::Entry),
        Line::Instr(Instr::PushFrame),
        Line::Instr(Instr::ReserveTape),
        Line::Instr(Instr::SetBase),
        Line::Instr(Instr::ClearIndex),
        Line::Label(Label::ZeroFill),
        Line::Instr(Instr::ZeroWord),
        Line::Instr(Instr::AdvanceIndex),
        Line::Instr(Instr::CompareIndex),
        Line::Instr(Instr::RepeatZeroFill),
    ]
}

/// Everything after the compiled commands: a trailing newline, the frame
/// released, and the return.
pub open spec fn epilogue() -> Seq<Line> {
    seq![
        Line::Instr(Instr::LoadNewline),
        Line::Instr(Instr::Call(Primitive::WriteByte)),
        Line::Instr(Instr::ReleaseTape),
        Line::Instr(Instr::PopFrame),
        Line::Instr(Instr::Return),
    ]
}

/// A pointer move by `n` cells, split into pieces of at most `MAX_MOVE`.
pub open spec fn move_lines(right: bool, n: nat) -> Seq<Line>
    decreases n,
{
    if n <= MAX_MOVE {
        seq![Line::Instr(if right { Instr::MoveRight(n as u32) } else { Instr::MoveLeft(n as u32) })]
    } else {
        seq![Line::Instr(if right { Instr::MoveRight(MAX_MOVE) } else { Instr::MoveLeft(MAX_MOVE) })]
            + move_lines(right, (n - MAX_MOVE) as nat)
    }
}

/// The lines of a run of `n` copies of the mutation command `c`.
pub open spec fn run_lines(c: Command, n: nat) -> Seq<Line> {
    match c {
        Command::MoveRight => move_lines(true, n),
        Command::MoveLeft => move_lines(false, n),
        Command::Increment => seq![Line::Instr(Instr::AddCell((n % 256) as u8))],
        _ => seq![Line::Instr(Instr::SubCell((n % 256) as u8))],
    }
}

/// The lines of a loop opening with label `l`: test the cell, skip to `l + 1` on zero.
pub open spec fn open_lines(l: u64) -> Seq<Line> {
    seq![
        Line::Label(Label::Loop(l)),
        Line::Instr(Instr::LoadTest),
        Line::Instr(Instr::TestZero),
        Line::Instr(Instr::JumpIfZero((l + 1) as u64)),
    ]
}

/// The lines of a loop closing with label `l`: jump back, then the exit label.
pub open spec fn close_lines(l: u64) -> Seq<Line> {
    seq![Line::Instr(Instr::Jump(l)), Line::Label(Label::Loop((l + 1) as u64))]
}

/// The lines that write the current cell.
pub open spec fn output_lines() -> Seq<Line> {
    seq![Line::Instr(Instr::LoadArg), Line::Instr(Instr::Call(Primitive::WriteByte))]
}

/// The lines that read a byte into the current cell.
pub open spec fn input_lines() -> Seq<Line> {
    seq![Line::Instr(Instr::Call(Primitive::ReadByte)), Line::Instr(Instr::StoreResult)]
}

/// Appends the prologue.
pub fn push_prologue(out: &mut Vec<Line>)
    ensures
        final(out)@ == old(out)@ + prologue(),
{
    out.push(Line::Section);
    out.push(Line::Import(Primitive::WriteByte));
    out.push(Line::Import(Primitive::ReadByte));
    out.push(Line::Export);
    out.push(Line::Label(Label::Entry));
    out.push(Line::Instr(Instr::PushFrame));
    out.push(Line::Instr(Instr::ReserveTape));
    out.push(Line::Instr(Instr::SetBase));
    out.push(Line::Instr(Instr::ClearIndex));
    out.push(Line::Label(Label::ZeroFill));
    out.push(Line::Instr(Instr::ZeroWord));
    out.push(Line::Instr(Instr::AdvanceIndex));
    out.push(Line::Instr(Instr::CompareIndex));
    out.push(Line::Instr(Instr::RepeatZeroFill));
    assert(final(out)@ =~= old(out)@ + prologue());
}

/// Appends the epilogue.
pub fn push_epilogue(out: &mut Vec<Line>)
    ensures
        final(out)@ == old(out)@ + epilogue(),
{
    out.push(Line::Instr(Instr::LoadNewline));
    out.push(Line::Instr(Instr::Call(Primitive::WriteByte)));
    out.push(Line::Instr(Instr::ReleaseTape));
    out.push(Line::Instr(Instr::PopFrame));
    out.push(Line::Instr(Instr::Return));
    assert(final(out)@ =~= old(out)@ + epilogue());
}

/// Appends a pointer move by `n` cells, as few instructions as the immediate allows.
pub fn push_move(out: &mut Vec<Line>, right: bool, n: usize)
    ensures
        final(out)@ == old(out)@ + move_lines(right, n as nat),
{
    let mut left: usize = n;
    while left > MAX_MOVE as usize
        invariant
            old(out)@ + move_lines(right, n as nat) == out@ + move_lines(right, left as nat),
        decreases left,
    {
        let piece = if right { Instr::MoveRight(MAX_MOVE) } else { Instr::MoveLeft(MAX_MOVE) };
        let ghost before = out@;
        out.push(Line::Instr(piece));
        assert(before + move_lines(right, left as nat) =~= out@ + move_lines(
            right,
            (left - MAX_MOVE) as nat,
        ));
        left = left - MAX_MOVE as usize;
    }
    let last = if right { Instr::MoveRight(left as u32) } else { Instr::MoveLeft(left as u32) };
    out.push(Line::Instr(last));
}

/// Appends the single scaled instruction, or the split move, of a run of `n` copies of `c`.
pub fn push_run(out: &mut Vec<Line>, c: Command, n: usize)
    requires
        c.is_mutation(),
    ensures
        final(out)@ == old(out)@ + run_lines(c, n as nat),
{
    match c {
        Command::MoveRight => push_move(out, true, n),
        Command::MoveLeft => push_move(out, false, n),
        Command::Increment => out.push(Line::Instr(Instr::AddCell((n % 256) as u8))),
        _ => out.push(Line::Instr(Instr::SubCell((n % 256) as u8))),
    }
}

} // verus!
