//! Properties that relate compilations of different sources.

use vstd::prelude::*;
use crate::command::{Command, command_of, program_of, strip_comments, lemma_program_of_stripped};
use crate::coalesce::{run_end, lemma_run_end};
use crate::compiler::{
    CompileError, EmitState, compile_result, depth, emit_from, initial_state, listing,
    lemma_depth_step,
};
use crate::listing::{
    Line, Label, move_lines, run_lines, prologue, epilogue, open_lines, close_lines, MAX_MOVE,
};
use crate::machine::{Machine, label_index, run, step};

verus! {

/// Comment bytes have no effect: a stream compiles exactly as it does with
/// every comment byte removed.
pub proof fn lemma_comments_transparent(src: Seq<u8>)
    ensures
        compile_result(program_of(strip_comments(src))) == compile_result(program_of(src)),
{
    lemma_program_of_stripped(src);
}

/// A loop closing at a point where every earlier opening is matched makes the
/// whole compilation fail with a mismatched close, and yields no lines.
pub proof fn lemma_mismatched_close_fatal(src: Seq<u8>, k: int)
    requires
        0 <= k < program_of(src).len(),
        program_of(src)[k] == Command::LoopClose,
        depth(program_of(src).take(k)) == 0,
    ensures
        compile_result(program_of(src)) == Err::<Seq<Line>, CompileError>(
            CompileError::MismatchedLoopClose,
        ),
{
    let p = program_of(src);
    lemma_depth_step(p, k);
    assert(depth(p.take(k + 1)) < 0);
}

/// No label is declared twice.
pub open spec fn labels_distinct(ls: Seq<Line>) -> bool {
    forall|a: int, b: int|
        0 <= a < b < ls.len() && (#[trigger] ls[a]) is Label ==> ls[a] != #[trigger] ls[b]
}

/// Every loop label declared so far is below `next`.
spec fn labels_below(ls: Seq<Line>, next: nat) -> bool {
    forall|a: int| 0 <= a < ls.len() ==> label_below(#[trigger] ls[a], next)
}

spec fn label_below(line: Line, next: nat) -> bool {
    match line {
        Line::Label(Label::Loop(l)) => l < next,
        _ => true,
    }
}

/// The emitter's state is sound for label uniqueness: pending ids are odd,
/// distinct, below `next`, and their exit labels not yet declared.
spec fn emit_inv(st: EmitState) -> bool {
    &&& labels_distinct(st.lines)
    &&& labels_below(st.lines, st.next)
    &&& st.next % 2 == 1
    &&& forall|k: int| 0 <= k < st.stack.len() ==> #[trigger] st.stack[k] < st.next && st.stack[k] % 2 == 1
    &&& forall|k: int, a: int|
        0 <= k < st.stack.len() && 0 <= a < st.lines.len() ==> #[trigger] st.lines[a] != Line::Label(
            Label::Loop((#[trigger] st.stack[k] + 1) as u64),
        )
    &&& forall|k1: int, k2: int|
        0 <= k1 < k2 < st.stack.len() ==> #[trigger] st.stack[k1] != #[trigger] st.stack[k2]
}

proof fn lemma_move_lines_plain(right: bool, n: nat)
    ensures
        forall|k: int| 0 <= k < move_lines(right, n).len() ==> (#[trigger] move_lines(right, n)[k]) is Instr,
    decreases n,
{
    if n > MAX_MOVE {
        lemma_move_lines_plain(right, (n - MAX_MOVE) as nat);
    }
}

/// Appending lines that declare no label keeps the invariant.
proof fn lemma_append_plain(st: EmitState, extra: Seq<Line>)
    requires
        emit_inv(st),
        forall|k: int| 0 <= k < extra.len() ==> (#[trigger] extra[k]) is Instr,
    ensures
        emit_inv(EmitState { lines: st.lines + extra, stack: st.stack, next: st.next }),
{
    let ls = st.lines + extra;
    assert forall|a: int, b: int| 0 <= a < b < ls.len() && (#[trigger] ls[a]) is Label implies ls[a] != #[trigger] ls[b] by {
        if b >= st.lines.len() {
            assert(extra[b - st.lines.len()] is Instr);
        }
    }
    assert forall|a: int| 0 <= a < ls.len() implies label_below(#[trigger] ls[a], st.next) by {
        if a >= st.lines.len() {
            assert(extra[a - st.lines.len()] is Instr);
        }
    }
    assert forall|k: int, a: int| 0 <= k < st.stack.len() && 0 <= a < ls.len() implies #[trigger] ls[a] != Line::Label(
        Label::Loop((#[trigger] st.stack[k] + 1) as u64),
    ) by {
        if a >= st.lines.len() {
            assert(extra[a - st.lines.len()] is Instr);
        }
    }
}

/// The invariant holds of every state that the walk reaches.
proof fn lemma_emit_inv(p: Seq<Command>, i: int, st: EmitState)
    requires
        0 <= i <= p.len(),
        emit_inv(st),
        st.next + 2 * (p.len() - i) <= u64::MAX,
    ensures
        emit_inv(emit_from(p, i, st)),
    decreases p.len() - i,
{
    if i < p.len() {
        if p[i].is_mutation() {
            lemma_run_end(p, i);
            let e = run_end(p, i);
            let extra = run_lines(p[i], (e - i) as nat);
            lemma_move_lines_plain(true, (e - i) as nat);
            lemma_move_lines_plain(false, (e - i) as nat);
            lemma_append_plain(st, extra);
            lemma_emit_inv(p, e, EmitState { lines: st.lines + extra, stack: st.stack, next: st.next });
        } else {
            match p[i] {
                Command::LoopOpen => {
                    let l = st.next as u64;
                    let ls = st.lines + crate::listing::open_lines(l);
                    let ns = EmitState { lines: ls, stack: st.stack.push(l), next: st.next + 2 };
                    assert forall|a: int, b: int| 0 <= a < b < ls.len() && (#[trigger] ls[a]) is Label implies ls[a] != #[trigger] ls[b] by {
                        if a < st.lines.len() && b == st.lines.len() {
                            assert(label_below(st.lines[a], st.next));
                        }
                    }
                    assert forall|a: int| 0 <= a < ls.len() implies label_below(#[trigger] ls[a], ns.next) by {
                        if a < st.lines.len() {
                            assert(label_below(st.lines[a], st.next));
                        }
                    }
                    assert forall|k: int, a: int| 0 <= k < ns.stack.len() && 0 <= a < ls.len() implies #[trigger] ls[a] != Line::Label(
                        Label::Loop((#[trigger] ns.stack[k] + 1) as u64),
                    ) by {
                        if a < st.lines.len() && ls[a] == Line::Label(Label::Loop((ns.stack[k] + 1) as u64)) {
                            if k < st.stack.len() {
                                assert(ns.stack[k] == st.stack[k]);
                            } else {
                                assert(label_below(st.lines[a], st.next));
                            }
                        }
                    }
                    assert forall|k1: int, k2: int| 0 <= k1 < k2 < ns.stack.len() implies #[trigger] ns.stack[k1] != #[trigger] ns.stack[k2] by {
                        if k2 == st.stack.len() {
                            assert(st.stack[k1] < st.next);
                        }
                    }
                    lemma_emit_inv(p, i + 1, ns);
                },
                Command::LoopClose => {
                    if st.stack.len() > 0 {
                        let top = st.stack.len() - 1;
                        let l = st.stack[top];
                        let ls = st.lines + crate::listing::close_lines(l);
                        let ns = EmitState { lines: ls, stack: st.stack.drop_last(), next: st.next };
                        assert(l + 1 < st.next);
                        assert forall|a: int, b: int| 0 <= a < b < ls.len() && (#[trigger] ls[a]) is Label implies ls[a] != #[trigger] ls[b] by {
                            if a < st.lines.len() && b == st.lines.len() + 1 {
                                assert(st.lines[a] != Line::Label(Label::Loop((st.stack[top] + 1) as u64)));
                            }
                        }
                        assert forall|a: int| 0 <= a < ls.len() implies label_below(#[trigger] ls[a], ns.next) by {
                            if a < st.lines.len() {
                                assert(label_below(st.lines[a], st.next));
                            }
                        }
                        assert forall|k: int, a: int| 0 <= k < ns.stack.len() && 0 <= a < ls.len() implies #[trigger] ls[a] != Line::Label(
                            Label::Loop((#[trigger] ns.stack[k] + 1) as u64),
                        ) by {
                            assert(ns.stack[k] == st.stack[k]);
                            assert(st.stack[k] != st.stack[top]);
                            if a < st.lines.len() {
                                assert(st.lines[a] != Line::Label(Label::Loop((st.stack[k] + 1) as u64)));
                            }
                        }
                        assert forall|k1: int, k2: int| 0 <= k1 < k2 < ns.stack.len() implies #[trigger] ns.stack[k1] != #[trigger] ns.stack[k2] by {
                            assert(st.stack[k1] != st.stack[k2]);
                        }
                        lemma_emit_inv(p, i + 1, ns);
                    }
                },
                Command::Output => {
                    lemma_append_plain(st, crate::listing::output_lines());
                    lemma_emit_inv(
                        p,
                        i + 1,
                        EmitState { lines: st.lines + crate::listing::output_lines(), stack: st.stack, next: st.next },
                    );
                },
                _ => {
                    lemma_append_plain(st, crate::listing::input_lines());
                    lemma_emit_inv(
                        p,
                        i + 1,
                        EmitState { lines: st.lines + crate::listing::input_lines(), stack: st.stack, next: st.next },
                    );
                },
            }
        }
    }
}

/// Every label of a compiled listing is declared once: loop labels never
/// collide, however deep or however many the loops.
pub proof fn lemma_labels_unique(src: Seq<u8>)
    requires
        program_of(src).len() <= i64::MAX,
        compile_result(program_of(src)) is Ok,
    ensures
        labels_distinct(compile_result(program_of(src))->Ok_0),
{
    let p = program_of(src);
    let st = initial_state();
    assert(emit_inv(st));
    lemma_emit_inv(p, 0, st);
    assert(compile_result(p)->Ok_0 == listing(p));
    lemma_append_plain(emit_from(p, 0, st), crate::listing::epilogue());
}

/// The byte `b` repeated `n` times.
pub open spec fn repeated(b: u8, n: nat) -> Seq<u8> {
    Seq::new(n, |_k: int| b)
}

proof fn lemma_program_of_repeated(b: u8, n: nat)
    requires
        command_of(b) is Some,
    ensures
        program_of(repeated(b, n)) =~= Seq::new(n, |_k: int| command_of(b)->Some_0),
    decreases n,
{
    if n > 0 {
        lemma_program_of_repeated(b, (n - 1) as nat);
        assert(repeated(b, n).drop_last() =~= repeated(b, (n - 1) as nat));
    }
}

/// Cell arithmetic wraps modulo 256: runs of `+` whose lengths agree modulo
/// 256 compile to the same listing.
pub proof fn lemma_increment_wraps(n: nat, m: nat)
    requires
        n > 0,
        m > 0,
        n % 256 == m % 256,
    ensures
        compile_result(program_of(repeated(43, n))) == compile_result(program_of(repeated(43, m))),
{
    lemma_program_of_repeated(43, n);
    lemma_program_of_repeated(43, m);
    crate::compiler::lemma_uniform_listing(Command::Increment, n);
    crate::compiler::lemma_uniform_listing(Command::Increment, m);
    assert(run_lines(Command::Increment, n) =~= run_lines(Command::Increment, m));
}

/// The listing position that a jump to a label declared once goes to.
proof fn lemma_label_index(ls: Seq<Line>, l: Label, k: int)
    requires
        labels_distinct(ls),
        0 <= k < ls.len(),
        ls[k] == Line::Label(l),
    ensures
        label_index(ls, l) == k,
{
    let j = label_index(ls, l);
    assert(0 <= j < ls.len() && ls[j] == Line::Label(l));
    if j < k {
        assert(ls[j] != ls[k]);
    } else if k < j {
        assert(ls[k] != ls[j]);
    }
}

/// An empty loop `[]` tests the cell at its head: on zero it skips to the
/// exit label past the body; otherwise it runs the empty body once and comes
/// back to the test, with tape, pointer and streams untouched either way.
pub proof fn lemma_empty_loop(m: Machine)
    ensures
        compile_result(program_of(seq![91u8, 93u8])) is Ok,
        ({
            let ls = compile_result(program_of(seq![91u8, 93u8]))->Ok_0;
            let head = prologue().len() as int;
            &&& ls[head] == Line::Label(Label::Loop(1))
            &&& ls[head + 5] == Line::Label(Label::Loop(2))
            &&& m.cell() == 0 ==> run(ls, head, m, 4).0 == head + 5 && run(ls, head, m, 4).1.same_data(m)
            &&& m.cell() != 0 ==> run(ls, head, m, 5).0 == head && run(ls, head, m, 5).1.same_data(m)
        }),
{
    let src = seq![91u8, 93u8];
    assert(src.drop_last() =~= seq![91u8]);
    assert(seq![91u8].drop_last() =~= Seq::<u8>::empty());
    let p = seq![Command::LoopOpen, Command::LoopClose];
    assert(seq![91u8].last() == 91u8);
    assert(program_of(Seq::<u8>::empty()) == Seq::<Command>::empty());
    assert(program_of(seq![91u8]) =~= seq![Command::LoopOpen]);
    assert(program_of(src) =~= p);
    lemma_depth_step(p, 0);
    lemma_depth_step(p, 1);
    assert(p.take(0) =~= Seq::<Command>::empty());
    assert(p.take(2) =~= p);
    assert(depth(p.take(0)) == 0);
    assert(crate::compiler::closes_matched(p)) by {
        assert forall|j: int| 0 <= j <= p.len() implies depth(#[trigger] p.take(j)) >= 0 by {
            assert(j == 0 || j == 1 || j == 2);
        }
    }
    let st0 = initial_state();
    let st1 = EmitState {
        lines: st0.lines + open_lines(1),
        stack: seq![1u64],
        next: 3,
    };
    let st2 = EmitState { lines: st1.lines + close_lines(1), stack: Seq::empty(), next: 3 };
    assert(st0.stack.push(1) =~= seq![1u64]);
    assert(seq![1u64].drop_last() =~= Seq::<u64>::empty());
    assert(emit_from(p, 2, st2) == st2);
    assert(emit_from(p, 1, st1) == st2);
    assert(emit_from(p, 0, st0) == emit_from(p, 1, st1));
    let ls = st2.lines + epilogue();
    assert(compile_result(p) == Ok::<Seq<Line>, CompileError>(ls));
    lemma_labels_unique(src);
    let head = prologue().len() as int;
    assert(head == 14);
    assert(ls[head] == Line::Label(Label::Loop(1)));
    assert(ls[head + 5] == Line::Label(Label::Loop(2)));
    lemma_label_index(ls, Label::Loop(1), head);
    lemma_label_index(ls, Label::Loop(2), head + 5);
    let m1 = step(ls, head, m).1;
    let m2 = step(ls, head + 1, m1).1;
    let m3 = step(ls, head + 2, m2).1;
    assert(m3.zero == (m.cell() == 0));
    let s4 = step(ls, head + 3, m3);
    assert(run(ls, s4.0, s4.1, 0) == s4);
    assert(run(ls, head + 3, m3, 1) == s4);
    assert(step(ls, head, m) == (head + 1, m1));
    assert(step(ls, head + 1, m1) == (head + 2, m2));
    assert(step(ls, head + 2, m2) == (head + 3, m3));
    if m.cell() == 0 {
        assert(run(ls, head + 2, m2, 2) == run(ls, head + 3, m3, 1));
        assert(run(ls, head + 1, m1, 3) == run(ls, head + 2, m2, 2));
        assert(run(ls, head, m, 4) == run(ls, head + 3, m3, 1));
    } else {
        let s5 = step(ls, head + 4, m3);
        assert(run(ls, s5.0, s5.1, 0) == s5);
        assert(run(ls, head + 4, m3, 1) == s5);
        assert(s4 == (head + 4, m3));
        assert(run(ls, head + 3, m3, 2) == run(ls, head + 4, m3, 1));
        assert(run(ls, head + 2, m2, 3) == run(ls, head + 3, m3, 2));
        assert(run(ls, head + 1, m1, 4) == run(ls, head + 2, m2, 3));
        assert(run(ls, head, m, 5) == run(ls, head + 4, m3, 1));
    }
}

} // verus!
