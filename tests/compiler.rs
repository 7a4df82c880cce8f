use bfc::coalesce::run_length;
use bfc::command::{decode, parse_program, Command};
use bfc::compiler::{compile, compile_program, CompileError};
use bfc::labels::LabelAllocator;
use bfc::listing::{push_move, push_run, Instr, Label, Line, Primitive, MAX_MOVE};
use bfc::loops::LoopResolver;

const PROLOGUE_LEN: usize = 14;
const EPILOGUE_LEN: usize = 5;

fn body(src: &[u8]) -> Vec<Line> {
    let lines = compile(src).expect("compiles");
    lines[PROLOGUE_LEN..lines.len() - EPILOGUE_LEN].to_vec()
}

fn labels(lines: &[Line]) -> Vec<Label> {
    lines
        .iter()
        .filter_map(|l| match l {
            Line::Label(x) => Some(*x),
            _ => None,
        })
        .collect()
}

#[test]
fn end_to_end_increment_then_output() {
    assert_eq!(
        body(b"+++."),
        vec![
            Line::Instr(Instr::AddCell(3)),
            Line::Instr(Instr::LoadArg),
            Line::Instr(Instr::Call(Primitive::WriteByte)),
        ]
    );
    let lines = compile(b"+++.").unwrap();
    let tail = &lines[lines.len() - EPILOGUE_LEN..];
    assert_eq!(tail[0], Line::Instr(Instr::LoadNewline));
    assert_eq!(tail[1], Line::Instr(Instr::Call(Primitive::WriteByte)));
    assert_eq!(tail[4], Line::Instr(Instr::Return));
}

#[test]
fn empty_source_is_frame_only() {
    let lines = compile(b"").unwrap();
    assert_eq!(lines.len(), PROLOGUE_LEN + EPILOGUE_LEN);
    assert_eq!(lines[0], Line::Section);
    assert_eq!(lines[1], Line::Import(Primitive::WriteByte));
    assert_eq!(lines[2], Line::Import(Primitive::ReadByte));
    assert_eq!(lines[3], Line::Export);
    assert_eq!(lines[4], Line::Label(Label::Entry));
    assert_eq!(lines[9], Line::Label(Label::ZeroFill));
    assert_eq!(lines[13], Line::Instr(Instr::RepeatZeroFill));
}

#[test]
fn runs_coalesce_to_one_scaled_instruction() {
    for &n in &[1usize, 2, 3, 255, 256, 1000] {
        assert_eq!(body(&vec![b'+'; n]), vec![Line::Instr(Instr::AddCell((n % 256) as u8))]);
        assert_eq!(body(&vec![b'-'; n]), vec![Line::Instr(Instr::SubCell((n % 256) as u8))]);
        assert_eq!(body(&vec![b'>'; n]), vec![Line::Instr(Instr::MoveRight(n as u32))]);
        assert_eq!(body(&vec![b'<'; n]), vec![Line::Instr(Instr::MoveLeft(n as u32))]);
    }
}

#[test]
fn increment_wraps_modulo_256() {
    assert_eq!(compile(&vec![b'+'; 257]), compile(b"+"));
    assert_eq!(body(&vec![b'+'; 256]), vec![Line::Instr(Instr::AddCell(0))]);
    assert_eq!(body(&vec![b'-'; 258]), vec![Line::Instr(Instr::SubCell(2))]);
}

#[test]
fn empty_loop_skips_to_exit() {
    assert_eq!(
        body(b"[]"),
        vec![
            Line::Label(Label::Loop(1)),
            Line::Instr(Instr::LoadTest),
            Line::Instr(Instr::TestZero),
            Line::Instr(Instr::JumpIfZero(2)),
            Line::Instr(Instr::Jump(1)),
            Line::Label(Label::Loop(2)),
        ]
    );
}

#[test]
fn nested_loop_labels_are_distinct() {
    let b = body(b"[[]]");
    let ls = labels(&b);
    assert_eq!(
        ls,
        vec![Label::Loop(1), Label::Loop(3), Label::Loop(4), Label::Loop(2)]
    );
    let lines = compile(b"[[[]]][]").unwrap();
    let all = labels(&lines);
    for i in 0..all.len() {
        for j in i + 1..all.len() {
            assert_ne!(all[i], all[j]);
        }
    }
    assert_eq!(all.len(), 2 + 2 * 4);
}

#[test]
fn lone_close_is_mismatched() {
    assert_eq!(compile(b"]"), Err(CompileError::MismatchedLoopClose));
    assert_eq!(compile(b"+[-]]."), Err(CompileError::MismatchedLoopClose));
    assert_eq!(compile(b"][]"), Err(CompileError::MismatchedLoopClose));
}

#[test]
fn unclosed_open_is_reported() {
    assert_eq!(compile(b"["), Err(CompileError::UnclosedLoopAtEnd));
    assert_eq!(compile(b"[[]+"), Err(CompileError::UnclosedLoopAtEnd));
}

#[test]
fn comments_are_transparent() {
    assert_eq!(compile(b"a+b+c.d"), compile(b"++."));
    assert_eq!(compile(b"hello [ world ] !"), compile(b"[]"));
    assert_eq!(compile(b"no commands here"), compile(b""));
}

#[test]
fn output_and_input_templates() {
    assert_eq!(
        body(b".,"),
        vec![
            Line::Instr(Instr::LoadArg),
            Line::Instr(Instr::Call(Primitive::WriteByte)),
            Line::Instr(Instr::Call(Primitive::ReadByte)),
            Line::Instr(Instr::StoreResult),
        ]
    );
}

#[test]
fn mixed_program_order_is_kept() {
    assert_eq!(
        body(b">>+<-"),
        vec![
            Line::Instr(Instr::MoveRight(2)),
            Line::Instr(Instr::AddCell(1)),
            Line::Instr(Instr::MoveLeft(1)),
            Line::Instr(Instr::SubCell(1)),
        ]
    );
}

#[test]
fn decode_recognises_the_alphabet() {
    assert_eq!(decode(b'>'), Some(Command::MoveRight));
    assert_eq!(decode(b'<'), Some(Command::MoveLeft));
    assert_eq!(decode(b'+'), Some(Command::Increment));
    assert_eq!(decode(b'-'), Some(Command::Decrement));
    assert_eq!(decode(b'.'), Some(Command::Output));
    assert_eq!(decode(b','), Some(Command::Input));
    assert_eq!(decode(b'['), Some(Command::LoopOpen));
    assert_eq!(decode(b']'), Some(Command::LoopClose));
    assert_eq!(decode(b'x'), None);
    assert_eq!(decode(b'\n'), None);
}

#[test]
fn parse_drops_comments() {
    assert_eq!(
        parse_program(b"+ x [\n]"),
        vec![Command::Increment, Command::LoopOpen, Command::LoopClose]
    );
    assert_eq!(parse_program(b"abc"), vec![]);
}

#[test]
fn run_length_counts_identical_commands() {
    let p = parse_program(b"+++-->");
    assert_eq!(run_length(&p, 0), (3, 3));
    assert_eq!(run_length(&p, 1), (2, 3));
    assert_eq!(run_length(&p, 3), (2, 5));
    assert_eq!(run_length(&p, 5), (1, 6));
}

#[test]
fn allocator_issues_odd_increasing_ids() {
    let mut a = LabelAllocator::new();
    assert_eq!(a.next(), 1);
    assert_eq!(a.next(), 3);
    assert_eq!(a.next(), 5);
}

#[test]
fn resolver_pairs_open_and_close() {
    let mut r = LoopResolver::new();
    let mut out = Vec::new();
    assert_eq!(r.close(&mut out), Err(CompileError::MismatchedLoopClose));
    assert!(out.is_empty());
    r.open(&mut out);
    r.open(&mut out);
    assert!(!r.is_balanced());
    assert_eq!(r.close(&mut out), Ok(()));
    assert_eq!(r.close(&mut out), Ok(()));
    assert!(r.is_balanced());
    assert_eq!(out[8], Line::Instr(Instr::Jump(3)));
    assert_eq!(out[9], Line::Label(Label::Loop(4)));
    assert_eq!(out[10], Line::Instr(Instr::Jump(1)));
    assert_eq!(out[11], Line::Label(Label::Loop(2)));
}

#[test]
fn oversized_moves_are_split() {
    let mut out = Vec::new();
    push_move(&mut out, true, MAX_MOVE as usize * 2 + 5);
    assert_eq!(
        out,
        vec![
            Line::Instr(Instr::MoveRight(MAX_MOVE)),
            Line::Instr(Instr::MoveRight(MAX_MOVE)),
            Line::Instr(Instr::MoveRight(5)),
        ]
    );
    let mut out = Vec::new();
    push_move(&mut out, false, MAX_MOVE as usize);
    assert_eq!(out, vec![Line::Instr(Instr::MoveLeft(MAX_MOVE))]);
}

#[test]
fn push_run_scales_cell_changes() {
    let mut out = Vec::new();
    push_run(&mut out, Command::Increment, 300);
    push_run(&mut out, Command::Decrement, 7);
    assert_eq!(
        out,
        vec![Line::Instr(Instr::AddCell(44)), Line::Instr(Instr::SubCell(7))]
    );
}

#[test]
fn compile_program_matches_compile() {
    let p = parse_program(b"+[->+<]");
    assert_eq!(compile_program(&p), compile(b"+[->+<]"));
}
