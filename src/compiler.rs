//! The instruction emitter: one walk over the program, producing the listing.

use vstd::prelude::*;
use crate::command::{Command, program_of, parse_program, lemma_program_len};
use crate::coalesce::{run_end, lemma_run_end, run_length};
use crate::listing::{
    Line, Instr, Primitive, prologue, epilogue, run_lines, open_lines, close_lines, output_lines, input_lines,
    push_prologue, push_epilogue, push_run,
};
use crate::loops::LoopResolver;

verus! {

/// Why a program cannot be compiled.
#[derive(PartialEq, Eq, Structural, Clone, Copy, Debug)]
pub enum CompileError {
    /// A loop closing with no pending loop opening.
    MismatchedLoopClose,
    /// A loop opening still pending at the end of the program.
    UnclosedLoopAtEnd,
}

/// What the emitter holds part way through a program: the lines so far, the
/// pending loop ids (innermost last) and the next id to issue.
pub struct EmitState {
    pub lines: Seq<Line>,
    pub stack: Seq<u64>,
    pub next: nat,
}

/// The state before any command: the prologue, no pending loop, first id 1.
pub open spec fn initial_state() -> EmitState {
    EmitState { lines: prologue(), stack: Seq::empty(), next: 1 }
}

/// The emitter's state after walking the program from position `i` on, from state `st`.
/// A run of mutations is taken whole; a loop closing with no pending loop stops the walk.
pub open spec fn emit_from(p: Seq<Command>, i: int, st: EmitState) -> EmitState
    decreases p.len() - i via emit_from_decreases
{
    if i < 0 || i >= p.len() {
        st
    } else if p[i].is_mutation() {
        let e = run_end(p, i);
        emit_from(
            p,
            e,
            EmitState { lines: st.lines + run_lines(p[i], (e - i) as nat), stack: st.stack, next: st.next },
        )
    } else {
        match p[i] {
            Command::LoopOpen => emit_from(
                p,
                i + 1,
                EmitState {
                    lines: st.lines + open_lines(st.next as u64),
                    stack: st.stack.push(st.next as u64),
                    next: st.next + 2,
                },
            ),
            Command::LoopClose => if st.stack.len() == 0 {
                st
            } else {
                emit_from(
                    p,
                    i + 1,
                    EmitState {
                        lines: st.lines + close_lines(st.stack.last()),
                        stack: st.stack.drop_last(),
                        next: st.next,
                    },
                )
            },
            Command::Output => emit_from(
                p,
                i + 1,
                EmitState { lines: st.lines + output_lines(), stack: st.stack, next: st.next },
            ),
            _ => emit_from(
                p,
                i + 1,
                EmitState { lines: st.lines + input_lines(), stack: st.stack, next: st.next },
            ),
        }
    }
}

#[via_fn]
proof fn emit_from_decreases(p: Seq<Command>, i: int, st: EmitState) {
    if 0 <= i < p.len() && p[i].is_mutation() {
        lemma_run_end(p, i);
    }
}

/// Loop openings minus loop closings.
pub open spec fn depth(p: Seq<Command>) -> int
    decreases p.len(),
{
    if p.len() == 0 {
        0
    } else {
        depth(p.drop_last()) + match p.last() {
            Command::LoopOpen => 1int,
            Command::LoopClose => -1int,
            _ => 0int,
        }
    }
}

/// No prefix closes more loops than it opens.
pub open spec fn closes_matched(p: Seq<Command>) -> bool {
    forall|j: int| 0 <= j <= p.len() ==> depth(#[trigger] p.take(j)) >= 0
}

/// The full listing of a program whose loops match.
pub open spec fn listing(p: Seq<Command>) -> Seq<Line> {
    emit_from(p, 0, initial_state()).lines + epilogue()
}

/// What compiling a program gives: the first structural error, else its listing.
pub open spec fn compile_result(p: Seq<Command>) -> Result<Seq<Line>, CompileError> {
    if !closes_matched(p) {
        Err(CompileError::MismatchedLoopClose)
    } else if depth(p) > 0 {
        Err(CompileError::UnclosedLoopAtEnd)
    } else {
        Ok(listing(p))
    }
}

/// Depth one command further on.
pub proof fn lemma_depth_step(p: Seq<Command>, j: int)
    requires
        0 <= j < p.len(),
    ensures
        depth(p.take(j + 1)) == depth(p.take(j)) + match p[j] {
            Command::LoopOpen => 1int,
            Command::LoopClose => -1int,
            _ => 0int,
        },
{
    assert(p.take(j + 1).drop_last() =~= p.take(j));
}

/// Depth does not change across mutations.
pub proof fn lemma_depth_run(p: Seq<Command>, i: int, e: int)
    requires
        0 <= i <= e <= p.len(),
        forall|k: int| i <= k < e ==> (#[trigger] p[k]).is_mutation(),
    ensures
        forall|j: int| i <= j <= e ==> depth(#[trigger] p.take(j)) == depth(p.take(i)),
    decreases e - i,
{
    if i < e {
        lemma_depth_run(p, i, e - 1);
        lemma_depth_step(p, e - 1);
    }
}

/// Compiles a program into its listing, or reports the first structural error.
/// The bound on the length is no real limit (a slice never holds more than
/// `isize::MAX` bytes); it keeps every loop label within 64 bits.
pub fn compile_program(p: &Vec<Command>) -> (r: Result<Vec<Line>, CompileError>)
    requires
        p@.len() <= i64::MAX,
    ensures
        match r {
            Ok(v) => compile_result(p@) == Ok::<Seq<Line>, CompileError>(v@),
            Err(e) => compile_result(p@) == Err::<Seq<Line>, CompileError>(e),
        },
{
    let mut out: Vec<Line> = Vec::new();
    push_prologue(&mut out);
    let mut loops = LoopResolver::new();
    let n = p.len();
    let mut i: usize = 0;
    proof {
        assert(out@ =~= prologue());
        assert(p@.take(0) =~= Seq::<Command>::empty());
    }
    while i < n
        invariant
            n == p@.len(),
            n <= i64::MAX,
            i <= n,
            loops.wf(),
            loops.upcoming() <= 1 + 2 * i,
            emit_from(p@, 0, initial_state()) == emit_from(
                p@,
                i as int,
                EmitState { lines: out@, stack: loops.pending(), next: loops.upcoming() },
            ),
            loops.pending().len() == depth(p@.take(i as int)),
            forall|j: int| 0 <= j <= i ==> depth(#[trigger] p@.take(j)) >= 0,
        decreases n - i,
    {
        let c = p[i];
        let ghost before = out@;
        if c.mutates() {
            let (count, next) = run_length(p, i);
            push_run(&mut out, c, count);
            proof {
                lemma_depth_run(p@, i as int, next as int);
            }
            i = next;
        } else {
            proof {
                lemma_depth_step(p@, i as int);
            }
            match c {
                Command::LoopOpen => {
                    loops.open(&mut out);
                },
                Command::LoopClose => {
                    let closed = loops.close(&mut out);
                    if closed.is_err() {
                        assert(!closes_matched(p@)) by {
                            assert(depth(p@.take(i + 1)) < 0);
                        }
                        return Err(CompileError::MismatchedLoopClose);
                    }
                },
                Command::Output => {
                    out.push(Line::Instr(Instr::LoadArg));
                    out.push(
                        Line::Instr(Instr::Call(Primitive::WriteByte)),
                    );
                    assert(out@ =~= before + output_lines());
                },
                _ => {
                    out.push(
                        Line::Instr(Instr::Call(Primitive::ReadByte)),
                    );
                    out.push(Line::Instr(Instr::StoreResult));
                    assert(out@ =~= before + input_lines());
                },
            }
            i = i + 1;
        }
    }
    assert(p@.take(n as int) =~= p@);
    if !loops.is_balanced() {
        return Err(CompileError::UnclosedLoopAtEnd);
    }
    push_epilogue(&mut out);
    Ok(out)
}

/// Compiles a source byte stream: comment bytes are skipped, the rest compiled.
pub fn compile(src: &[u8]) -> (r: Result<Vec<Line>, CompileError>)
    requires
        src@.len() <= i64::MAX,
    ensures
        match r {
            Ok(v) => compile_result(program_of(src@)) == Ok::<Seq<Line>, CompileError>(v@),
            Err(e) => compile_result(program_of(src@)) == Err::<Seq<Line>, CompileError>(e),
        },
{
    let p = parse_program(src);
    proof {
        lemma_program_len(src@);
    }
    compile_program(&p)
}

/// A program of `n` copies of one mutation compiles to the prologue, the
/// lines of one run of length `n`, and the epilogue.
pub proof fn lemma_uniform_listing(c: Command, n: nat)
    requires
        c.is_mutation(),
        n > 0,
    ensures
        compile_result(Seq::new(n, |_k: int| c)) == Ok::<Seq<Line>, CompileError>(
            prologue() + run_lines(c, n) + epilogue(),
        ),
{
    let q = Seq::new(n, |_k: int| c);
    lemma_run_end(q, 0);
    assert(run_end(q, 0) == n);
    lemma_depth_run(q, 0, n as int);
    assert(q.take(0) =~= Seq::<Command>::empty());
    assert(q.take(n as int) =~= q);
    assert(depth(q.take(0)) == 0);
    assert(depth(q) == 0);
    assert(closes_matched(q));
    let st1 = EmitState { lines: prologue() + run_lines(c, n), stack: Seq::empty(), next: 1 };
    assert(emit_from(q, n as int, st1) == st1);
    assert(emit_from(q, 0, initial_state()) == st1);
}

} // verus!
