//! Source commands and the decoding of a raw byte stream into a program.

use vstd::prelude::*;

verus! {

/// One of the eight recognised source symbols.
#[derive(PartialEq, Eq, Structural, Clone, Copy, Debug)]
pub enum Command {
    MoveRight,
    MoveLeft,
    Increment,
    Decrement,
    Output,
    Input,
    LoopOpen,
    LoopClose,
}

impl Command {
    /// Pointer and cell mutations: the commands that runs are made of.
    pub open spec fn is_mutation(self) -> bool {
        match self {
            Command::MoveRight | Command::MoveLeft | Command::Increment | Command::Decrement => true,
            _ => false,
        }
    }

    /// Whether this command is one of the four that are folded into runs.
    pub fn mutates(&self) -> (r: bool)
        ensures
            r == self.is_mutation(),
    {
        match self {
            Command::MoveRight | Command::MoveLeft | Command::Increment | Command::Decrement => true,
            _ => false,
        }
    }
}

/// The command a byte stands for, or `None` for a comment byte.
pub open spec fn command_of(b: u8) -> Option<Command> {
    if b == 62 {
        Some(Command::MoveRight)
    } else if b == 60 {
        Some(Command::MoveLeft)
    } else if b == 43 {
        Some(Command::Increment)
    } else if b == 45 {
        Some(Command::Decrement)
    } else if b == 46 {
        Some(Command::Output)
    } else if b == 44 {
        Some(Command::Input)
    } else if b == 91 {
        Some(Command::LoopOpen)
    } else if b == 93 {
        Some(Command::LoopClose)
    } else {
        None
    }
}

/// The program a byte stream denotes: its command bytes in order, comments dropped.
pub open spec fn program_of(s: Seq<u8>) -> Seq<Command>
    decreases s.len(),
{
    if s.len() == 0 {
        Seq::empty()
    } else {
        let rest = program_of(s.drop_last());
        match command_of(s.last()) {
            Some(c) => rest.push(c),
            None => rest,
        }
    }
}

/// The byte stream with every comment byte removed.
pub open spec fn strip_comments(s: Seq<u8>) -> Seq<u8>
    decreases s.len(),
{
    if s.len() == 0 {
        Seq::empty()
    } else {
        let rest = strip_comments(s.drop_last());
        if command_of(s.last()) is Some {
            rest.push(s.last())
        } else {
            rest
        }
    }
}

/// Decodes one byte.
pub fn decode(b: u8) -> (r: Option<Command>)
    ensures
        r == command_of(b),
{
    match b {
        62 => Some(Command::MoveRight),
        60 => Some(Command::MoveLeft),
        43 => Some(Command::Increment),
        45 => Some(Command::Decrement),
        46 => Some(Command::Output),
        44 => Some(Command::Input),
        91 => Some(Command::LoopOpen),
        93 => Some(Command::LoopClose),
        _ => None,
    }
}

/// Reads a byte stream as a program, skipping comment bytes.
pub fn parse_program(src: &[u8]) -> (r: Vec<Command>)
    ensures
        r@ == program_of(src@),
{
    let mut out: Vec<Command> = Vec::new();
    let mut i: usize = 0;
    while i < src.len()
        invariant
            i <= src@.len(),
            out@ == program_of(src@.take(i as int)),
        decreases src@.len() - i,
    {
        assert(src@.take(i as int + 1).drop_last() =~= src@.take(i as int));
        if let Some(c) = decode(src[i]) {
            out.push(c);
        }
        i += 1;
    }
    assert(src@.take(i as int) =~= src@);
    out
}

/// A program has at most as many commands as its stream has bytes.
pub proof fn lemma_program_len(s: Seq<u8>)
    ensures
        program_of(s).len() <= s.len(),
    decreases s.len(),
{
    if s.len() > 0 {
        lemma_program_len(s.drop_last());
    }
}

/// Stripping comments does not change the program a stream denotes.
pub proof fn lemma_program_of_stripped(s: Seq<u8>)
    ensures
        program_of(strip_comments(s)) == program_of(s),
    decreases s.len(),
{
    if s.len() > 0 {
        lemma_program_of_stripped(s.drop_last());
        let r = strip_comments(s.drop_last());
        if command_of(s.last()) is Some {
            assert(r.push(s.last()).drop_last() =~= r);
        }
    }
}

} // verus!
