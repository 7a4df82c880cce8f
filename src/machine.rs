//! What the emitted instructions do, over an abstract machine: a tape of
//! bytes, the tape pointer, the few registers the listing uses, and the
//! streams the two primitives read and write.

use vstd::prelude::*;
use vstd::arithmetic::div_mod::lemma_add_mod_noop_right;
use crate::command::Command;
use crate::compiler::{CompileError, compile_result, lemma_uniform_listing};
use crate::listing::{
    Line, Label, Instr, Primitive, MAX_MOVE, move_lines, run_lines, prologue, epilogue,
};

verus! {

/// The state the instructions act on. Cells never written read as zero, as
/// the prologue's zero-fill leaves them.
pub struct Machine {
    pub tape: Map<int, u8>,
    pub ptr: int,
    /// The test register that a loop head loads the cell into.
    pub test: u8,
    /// The zero flag.
    pub zero: bool,
    /// The argument register of the write primitive.
    pub arg: u8,
    /// The low byte of the read primitive's result.
    pub result: u8,
    /// Bytes still to be read.
    pub input: Seq<u8>,
    /// Bytes written so far.
    pub output: Seq<u8>,
}

impl Machine {
    /// The byte under the pointer.
    pub open spec fn cell(self) -> u8 {
        if self.tape.contains_key(self.ptr) {
            self.tape[self.ptr]
        } else {
            0
        }
    }

    /// The machine with the byte under the pointer replaced.
    pub open spec fn with_cell(self, v: u8) -> Machine {
        Machine { tape: self.tape.insert(self.ptr, v), ..self }
    }

    /// The machine with the pointer displaced by `d`.
    pub open spec fn moved(self, d: int) -> Machine {
        Machine { ptr: self.ptr + d, ..self }
    }

    /// Tape, pointer and both streams agree.
    pub open spec fn same_data(self, o: Machine) -> bool {
        &&& self.tape == o.tape
        &&& self.ptr == o.ptr
        &&& self.input == o.input
        &&& self.output == o.output
    }
}

/// What one instruction does to the machine, control flow aside. Frame
/// instructions leave the abstract state alone: the tape they set up is the
/// machine's initial tape.
pub open spec fn exec_instr(i: Instr, m: Machine) -> Machine {
    match i {
        Instr::MoveRight(n) => m.moved(n as int),
        Instr::MoveLeft(n) => m.moved(-(n as int)),
        Instr::AddCell(n) => m.with_cell(((m.cell() + n) % 256) as u8),
        Instr::SubCell(n) => m.with_cell(((m.cell() - n) % 256) as u8),
        Instr::LoadTest => Machine { test: m.cell(), ..m },
        Instr::TestZero => Machine { zero: m.test == 0, ..m },
        Instr::LoadArg => Machine { arg: m.cell(), ..m },
        Instr::LoadNewline => Machine { arg: 10, ..m },
        Instr::Call(Primitive::WriteByte) => Machine { output: m.output.push(m.arg), ..m },
        Instr::Call(Primitive::ReadByte) => if m.input.len() > 0 {
            Machine { result: m.input[0], input: m.input.drop_first(), ..m }
        } else {
            Machine { result: 255, ..m }
        },
        Instr::StoreResult => m.with_cell(m.result),
        _ => m,
    }
}

/// What one line does, control flow aside: declarations do nothing.
pub open spec fn exec_line(l: Line, m: Machine) -> Machine {
    match l {
        Line::Instr(i) => exec_instr(i, m),
        _ => m,
    }
}

/// Straight-line execution of lines in order.
pub open spec fn exec_lines(ls: Seq<Line>, m: Machine) -> Machine
    decreases ls.len(),
{
    if ls.len() == 0 {
        m
    } else {
        exec_lines(ls.drop_first(), exec_line(ls[0], m))
    }
}

/// `s` written `n` times in a row.
pub open spec fn repeat_lines(s: Seq<Line>, n: nat) -> Seq<Line>
    decreases n,
{
    if n == 0 {
        Seq::empty()
    } else {
        repeat_lines(s, (n - 1) as nat) + s
    }
}

/// Where the label is declared in the listing.
pub open spec fn label_index(ls: Seq<Line>, l: Label) -> int {
    choose|k: int| 0 <= k < ls.len() && ls[k] == Line::Label(l)
}

/// One step of the listing at `pc`: the next position and the machine after.
pub open spec fn step(ls: Seq<Line>, pc: int, m: Machine) -> (int, Machine) {
    if 0 <= pc < ls.len() {
        match ls[pc] {
            Line::Instr(Instr::JumpIfZero(l)) => if m.zero {
                (label_index(ls, Label::Loop(l)), m)
            } else {
                (pc + 1, m)
            },
            Line::Instr(Instr::Jump(l)) => (label_index(ls, Label::Loop(l)), m),
            line => (pc + 1, exec_line(line, m)),
        }
    } else {
        (pc, m)
    }
}

/// `k` steps of the listing from `pc`.
pub open spec fn run(ls: Seq<Line>, pc: int, m: Machine, k: nat) -> (int, Machine)
    decreases k,
{
    if k == 0 {
        (pc, m)
    } else {
        let (pc2, m2) = step(ls, pc, m);
        run(ls, pc2, m2, (k - 1) as nat)
    }
}

/// What a run of `n` copies of the mutation `c` does.
pub open spec fn run_effect(c: Command, n: nat, m: Machine) -> Machine {
    match c {
        Command::MoveRight => m.moved(n as int),
        Command::MoveLeft => m.moved(-(n as int)),
        Command::Increment => m.with_cell(((m.cell() + n) % 256) as u8),
        _ => m.with_cell(((m.cell() - n) % 256) as u8),
    }
}

proof fn lemma_exec_concat(a: Seq<Line>, b: Seq<Line>, m: Machine)
    ensures
        exec_lines(a + b, m) == exec_lines(b, exec_lines(a, m)),
    decreases a.len(),
{
    if a.len() > 0 {
        assert((a + b).drop_first() =~= a.drop_first() + b);
        lemma_exec_concat(a.drop_first(), b, exec_line(a[0], m));
    }
}

proof fn lemma_exec_one(l: Line, m: Machine)
    ensures
        exec_lines(seq![l], m) == exec_line(l, m),
{
    assert(seq![l].drop_first() =~= Seq::<Line>::empty());
    assert(exec_lines(Seq::<Line>::empty(), exec_line(l, m)) == exec_line(l, m));
}

proof fn lemma_move_effect(right: bool, n: nat, m: Machine)
    ensures
        exec_lines(move_lines(right, n), m) == m.moved(if right { n as int } else { -(n as int) }),
    decreases n,
{
    if n <= MAX_MOVE {
        lemma_exec_one(move_lines(right, n)[0], m);
        assert(move_lines(right, n) =~= seq![move_lines(right, n)[0]]);
    } else {
        let head = seq![Line::Instr(if right { Instr::MoveRight(MAX_MOVE) } else { Instr::MoveLeft(MAX_MOVE) })];
        lemma_exec_concat(head, move_lines(right, (n - MAX_MOVE) as nat), m);
        lemma_exec_one(head[0], m);
        let m1 = exec_lines(head, m);
        lemma_move_effect(right, (n - MAX_MOVE) as nat, m1);
    }
}

/// The lines of a run have the run's effect.
proof fn lemma_run_lines_effect(c: Command, n: nat, m: Machine)
    requires
        c.is_mutation(),
    ensures
        exec_lines(run_lines(c, n), m) == run_effect(c, n, m),
{
    match c {
        Command::MoveRight => lemma_move_effect(true, n, m),
        Command::MoveLeft => lemma_move_effect(false, n, m),
        _ => {
            lemma_exec_one(run_lines(c, n)[0], m);
            assert(run_lines(c, n) =~= seq![run_lines(c, n)[0]]);
            assert(exec_lines(run_lines(c, n), m).tape =~= run_effect(c, n, m).tape);
        },
    }
}

/// One more command after a run of `n` is a run of `n + 1`.
proof fn lemma_effect_succ(c: Command, n: nat, m: Machine)
    requires
        c.is_mutation(),
        n > 0,
    ensures
        run_effect(c, 1, run_effect(c, n, m)) == run_effect(c, n + 1, m),
{
    let a = run_effect(c, 1, run_effect(c, n, m));
    let b = run_effect(c, n + 1, m);
    let x = m.cell() as int;
    if c == Command::Increment {
        lemma_add_mod_noop_right(1, x + n, 256);
        assert(a.tape =~= b.tape);
    } else if c == Command::Decrement {
        lemma_add_mod_noop_right(-1, x - n, 256);
        assert(a.tape =~= b.tape);
    }
}

/// Coalescing is sound: a program of `n` copies of a mutation compiles to
/// the lines of one run, and those act on the machine exactly as the lines of
/// `n` single copies of it do.
pub proof fn lemma_coalescing_equivalence(c: Command, n: nat, m: Machine)
    requires
        c.is_mutation(),
        n > 0,
    ensures
        compile_result(Seq::new(n, |_k: int| c)) == Ok::<Seq<Line>, CompileError>(
            prologue() + run_lines(c, n) + epilogue(),
        ),
        exec_lines(run_lines(c, n), m) == exec_lines(repeat_lines(run_lines(c, 1), n), m),
{
    lemma_uniform_listing(c, n);
    lemma_run_effect_repeated(c, n, m);
}

/// The lines of a run act as the lines of its single commands in a row.
proof fn lemma_run_effect_repeated(c: Command, n: nat, m: Machine)
    requires
        c.is_mutation(),
        n > 0,
    ensures
        exec_lines(run_lines(c, n), m) == exec_lines(repeat_lines(run_lines(c, 1), n), m),
    decreases n,
{
    lemma_run_lines_effect(c, n, m);
    if n == 1 {
        assert(repeat_lines(run_lines(c, 1), 0) =~= Seq::<Line>::empty());
        assert(repeat_lines(run_lines(c, 1), 1) =~= run_lines(c, 1));
    } else {
        let k = (n - 1) as nat;
        lemma_run_effect_repeated(c, k, m);
        lemma_run_lines_effect(c, k, m);
        lemma_exec_concat(repeat_lines(run_lines(c, 1), k), run_lines(c, 1), m);
        lemma_run_lines_effect(c, 1, run_effect(c, k, m));
        lemma_effect_succ(c, k, m);
    }
}

} // verus!
