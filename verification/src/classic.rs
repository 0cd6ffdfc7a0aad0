//! The first form of the language: programs are not checked ahead of time,
//! and evaluation reports a stack that is too small as an error.
use vstd::prelude::*;

use crate::cmd::Cmd;
use crate::color::Color;
use crate::compile::{last_bg, last_fg, last_khz};
use crate::eval::{answers, eval_checking_stack, result_of, total, FloatOp, Val};
use crate::parse::{first_fault, parse_classic, reads, reads_all, reads_to};
use crate::text::tokens;

pub use crate::format::format_beat;

verus! {

/// A program with its metadata.
#[derive(Debug)]
pub struct Program {
    code: Vec<Cmd>,
    bg: Option<Color>,
    fg: Option<Color>,
    khz: Option<u8>,
}

impl Program {
    pub closed spec fn code(self) -> Seq<Cmd> {
        self.code@
    }

    pub closed spec fn spec_bg(self) -> Option<Color> {
        self.bg
    }

    pub closed spec fn spec_fg(self) -> Option<Color> {
        self.fg
    }

    pub closed spec fn spec_khz(self) -> Option<u8> {
        self.khz
    }

    pub fn bg(&self) -> (r: Option<Color>)
        ensures
            r == self.spec_bg(),
    {
        self.bg
    }

    pub fn fg(&self) -> (r: Option<Color>)
        ensures
            r == self.spec_fg(),
    {
        self.fg
    }

    /// The sample rate in Hz.
    pub fn hz(&self) -> (r: Option<u32>)
        ensures
            r == (match self.spec_khz() {
                Some(k) => Some((k * 1000) as u32),
                None => None,
            }),
    {
        match self.khz {
            Some(x) => Some(x as u32 * 1000),
            None => None,
        }
    }

    /// The instructions of the program.
    pub fn code_ref(&self) -> (r: &Vec<Cmd>)
        ensures
            r@ == self.code(),
    {
        &self.code
    }
}

/// A program holding `cmds`, with the last `Bg`, `Fg` and `Khz` among them
/// as its metadata.
pub fn program_of(cmds: Vec<Cmd>) -> (p: Program)
    ensures
        p.code() == cmds@,
        p.spec_bg() == last_bg(cmds@, cmds@.len() as int),
        p.spec_fg() == last_fg(cmds@, cmds@.len() as int),
        p.spec_khz() == last_khz(cmds@, cmds@.len() as int),
{
    let mut bg: Option<Color> = None;
    let mut fg: Option<Color> = None;
    let mut khz: Option<u8> = None;
    let n = cmds.len();
    let mut i: usize = 0;
    while i < n
        invariant
            n == cmds@.len(),
            0 <= i <= n,
            bg == last_bg(cmds@, i as int),
            fg == last_fg(cmds@, i as int),
            khz == last_khz(cmds@, i as int),
        decreases n - i,
    {
        match &cmds[i] {
            Cmd::Bg(col) => bg = Some(*col),
            Cmd::Fg(col) => fg = Some(*col),
            Cmd::Khz(k) => khz = Some(*k),
            _ => {},
        }
        i = i + 1;
    }
    Program { code: cmds, bg, fg, khz }
}

/// Collects the metadata of a program (the last `Bg`, `Fg` and `Khz`); every
/// program is accepted.
pub fn compile(cmds: Vec<Cmd>) -> (r: Result<Program, ()>)
    ensures
        r matches Ok(p) && p.code() == cmds@ && p.spec_bg() == last_bg(cmds@, cmds@.len() as int)
            && p.spec_fg() == last_fg(cmds@, cmds@.len() as int) && p.spec_khz() == last_khz(
            cmds@,
            cmds@.len() as int,
        ),
{
    Ok(program_of(cmds))
}

/// Evaluates a program at time `t`, handing float work to `float`;
/// `Err(())` when an instruction pops from a stack that is too small or the
/// program leaves nothing behind.
pub fn eval_beat<F: Fn(FloatOp) -> u64>(program: &Program, t: Val, float: F) -> (r: Result<Val, ()>)
    requires
        total(float),
    ensures
        forall|o: spec_fn(FloatOp) -> u64|
            answers(float, o) ==> r == (match result_of(program.code(), t, o) {
                Some(v) => Ok(v),
                None => Err(()),
            }),
{
    eval_checking_stack(program.code_ref(), t, &float)
}

/// Splits `text` at white space and reads every token as an instruction
/// (`0x` literals are not part of this form); on failure, the first token
/// that reads as nothing. Float literals are read by `read_float`.
pub fn parse_beat<'a, R: Fn(&str) -> Option<u64>>(text: &'a str, read_float: R) -> (r: Result<
    Vec<Cmd>,
    &'a str,
>)
    requires
        reads_all(read_float),
    ensures
        forall|rd: spec_fn(Seq<char>) -> Option<u64>|
            reads(read_float, rd) ==> match r {
                Ok(cmds) => first_fault(tokens(text@), rd, false, tokens(text@).len() as int) is None
                    && reads_to(tokens(text@), rd, false, cmds@),
                Err(tok) => exists|k: int|
                    first_fault(tokens(text@), rd, false, tokens(text@).len() as int) == Some(k)
                        && tok@ == #[trigger] tokens(text@)[k],
            },
{
    parse_classic(text, read_float)
}

} // verus!
