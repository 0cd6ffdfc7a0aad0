use vstd::prelude::*;

use crate::cmd::{is_meta, Cmd};
use crate::color::Color;

verus! {

/// Why a program was rejected.
#[derive(Debug, PartialEq, Eq)]
pub enum ErrorKind {
    /// The instruction at `index` would pop more values than the `stack_size`
    /// values on the stack before it.
    UnderflowedStack { index: usize, stack_size: isize },
    /// The program leaves nothing on the stack.
    EmptyProgram,
}

/// A rejected program, with the instructions that were handed in.
#[derive(Debug, PartialEq)]
pub struct CompileError {
    pub(crate) cmds: Vec<Cmd>,
    pub(crate) error_kind: ErrorKind,
}

/// A program that passed the stack-depth check, with its metadata.
#[derive(Debug)]
pub struct Program {
    pub(crate) cmds: Vec<Cmd>,
    pub(crate) bg: Option<Color>,
    pub(crate) fg: Option<Color>,
    pub(crate) khz: Option<u8>,
}

/// `num` as an `isize`, clamped to `isize::MAX`.
pub open spec fn clamp_isize(num: usize) -> int {
    if num > isize::MAX {
        isize::MAX as int
    } else {
        num as int
    }
}

/// The net change in stack depth that `compile` assigns to an instruction
/// (metadata counts as no change).
pub open spec fn stack_change(c: Cmd) -> int {
    match c {
        Cmd::Var | Cmd::NumF(_) | Cmd::NumI(_) | Cmd::Hex(_) => 1,
        Cmd::Fg(_) | Cmd::Bg(_) | Cmd::Khz(_) | Cmd::Comment(_) => 0,
        Cmd::Sin | Cmd::Cos | Cmd::Tan => 0,
        Cmd::Arr(x) => -clamp_isize(x),
        Cmd::Cond => -2,
        _ => -1,
    }
}

/// Stack depth, as `compile` counts it, before instruction `n`.
pub open spec fn depth(cmds: Seq<Cmd>, n: int) -> int
    decreases n,
{
    if n <= 0 {
        0
    } else {
        depth(cmds, n - 1) + stack_change(cmds[n - 1])
    }
}

/// Instruction `i` would take the stack to zero or below.
pub open spec fn underflows_at(cmds: Seq<Cmd>, i: int) -> bool {
    !is_meta(cmds[i]) && depth(cmds, i) + stack_change(cmds[i]) <= 0
}

/// The first of the first `n` instructions that underflows, if any.
pub open spec fn first_underflow(cmds: Seq<Cmd>, n: int) -> Option<int>
    decreases n,
{
    if n <= 0 {
        None
    } else {
        match first_underflow(cmds, n - 1) {
            Some(i) => Some(i),
            None => if underflows_at(cmds, n - 1) {
                Some(n - 1)
            } else {
                None
            },
        }
    }
}

/// What `compile` says of a program: no error, or the error it reports.
pub open spec fn check(cmds: Seq<Cmd>) -> Option<ErrorKind> {
    match first_underflow(cmds, cmds.len() as int) {
        Some(i) => Some(
            ErrorKind::UnderflowedStack { index: i as usize, stack_size: depth(cmds, i) as isize },
        ),
        None => if depth(cmds, cmds.len() as int) == 0 {
            Some(ErrorKind::EmptyProgram)
        } else {
            None
        },
    }
}

/// A program that `compile` accepts.
pub open spec fn compiles(cmds: Seq<Cmd>) -> bool {
    check(cmds) is None
}

/// The color of the last `Bg` among the first `n` instructions.
pub open spec fn last_bg(cmds: Seq<Cmd>, n: int) -> Option<Color>
    decreases n,
{
    if n <= 0 {
        None
    } else {
        match cmds[n - 1] {
            Cmd::Bg(c) => Some(c),
            _ => last_bg(cmds, n - 1),
        }
    }
}

/// The color of the last `Fg` among the first `n` instructions.
pub open spec fn last_fg(cmds: Seq<Cmd>, n: int) -> Option<Color>
    decreases n,
{
    if n <= 0 {
        None
    } else {
        match cmds[n - 1] {
            Cmd::Fg(c) => Some(c),
            _ => last_fg(cmds, n - 1),
        }
    }
}

/// The rate of the last `Khz` among the first `n` instructions.
pub open spec fn last_khz(cmds: Seq<Cmd>, n: int) -> Option<u8>
    decreases n,
{
    if n <= 0 {
        None
    } else {
        match cmds[n - 1] {
            Cmd::Khz(k) => Some(k),
            _ => last_khz(cmds, n - 1),
        }
    }
}

impl Program {
    #[verifier::type_invariant]
    pub(crate) open spec fn well_formed(self) -> bool {
        compiles(self.code()) && self.code().len() <= isize::MAX
    }

    /// The instructions of the program.
    pub closed spec fn code(self) -> Seq<Cmd> {
        self.cmds@
    }

    /// The background color that the program asks for.
    pub closed spec fn spec_bg(self) -> Option<Color> {
        self.bg
    }

    /// The foreground color that the program asks for.
    pub closed spec fn spec_fg(self) -> Option<Color> {
        self.fg
    }

    /// The sample rate in kHz that the program asks for.
    pub closed spec fn spec_khz(self) -> Option<u8> {
        self.khz
    }

    pub fn bg(&self) -> (r: Option<Color>)
        ensures
            r == self.spec_bg(),
    {
        self.bg
    }

    pub fn fg(&self) -> (r: Option<Color>)
        ensures
            r == self.spec_fg(),
    {
        self.fg
    }

    /// The sample rate in Hz.
    pub fn hz(&self) -> (r: Option<u32>)
        ensures
            r == (match self.spec_khz() {
                Some(k) => Some((k * 1000) as u32),
                None => None,
            }),
    {
        match self.khz {
            Some(x) => Some(x as u32 * 1000),
            None => None,
        }
    }

    /// The instructions of the program.
    pub fn code_ref(&self) -> (r: &Vec<Cmd>)
        ensures
            r@ == self.code(),
    {
        &self.cmds
    }
}

impl CompileError {
    /// The error is the one `compile` reports for the instructions.
    #[verifier::type_invariant]
    pub(crate) open spec fn rejected(self) -> bool {
        check(self.code()) == Some(self.kind())
    }

    /// The instructions that were rejected.
    pub closed spec fn code(self) -> Seq<Cmd> {
        self.cmds@
    }

    /// What was wrong with them.
    pub closed spec fn kind(self) -> ErrorKind {
        self.error_kind
    }

    pub fn into_code(self) -> (r: Vec<Cmd>)
        ensures
            r@ == self.code(),
    {
        self.cmds
    }

    pub fn as_code(&self) -> (r: &[Cmd])
        ensures
            r@ == self.code(),
    {
        self.cmds.as_slice()
    }

    pub fn error_kind(&self) -> (r: &ErrorKind)
        ensures
            *r == self.kind(),
    {
        &self.error_kind
    }
}

/// `num` as an `isize`, or `isize::MAX` if it does not fit.
pub fn saturating_as_isize(num: usize) -> (r: isize)
    ensures
        r == clamp_isize(num),
{
    if num > isize::MAX as usize {
        isize::MAX
    } else {
        num as isize
    }
}

pub(crate) proof fn lemma_first_underflow_none_prefix(cmds: Seq<Cmd>, i: int, n: int)
    requires
        0 <= i <= n,
        first_underflow(cmds, n) is None,
    ensures
        first_underflow(cmds, i) is None,
    decreases n - i,
{
    if i < n {
        lemma_first_underflow_none_prefix(cmds, i, n - 1);
    }
}

proof fn lemma_first_underflow_stable(cmds: Seq<Cmd>, i: int, n: int)
    requires
        0 <= i < n,
        first_underflow(cmds, i + 1) == Some(i),
    ensures
        first_underflow(cmds, n) == Some(i),
    decreases n - i,
{
    if n > i + 1 {
        lemma_first_underflow_stable(cmds, i, n - 1);
    }
}

/// Checks that no instruction pops from a stack that is too small and that
/// the program leaves a value behind, and collects the metadata (the last
/// `Bg`, `Fg` and `Khz` of the program).
pub fn compile(cmds: Vec<Cmd>) -> (r: Result<Program, CompileError>)
    requires
        cmds@.len() <= isize::MAX,
    ensures
        r is Ok <==> compiles(cmds@),
        match r {
            Ok(p) => {
                &&& p.code() == cmds@
                &&& p.spec_bg() == last_bg(cmds@, cmds@.len() as int)
                &&& p.spec_fg() == last_fg(cmds@, cmds@.len() as int)
                &&& p.spec_khz() == last_khz(cmds@, cmds@.len() as int)
            },
            Err(e) => e.code() == cmds@ && check(cmds@) == Some(e.kind()),
        },
{
    let mut bg: Option<Color> = None;
    let mut fg: Option<Color> = None;
    let mut khz: Option<u8> = None;
    let n = cmds.len();
    let mut i: usize = 0;
    while i < n
        invariant
            n == cmds@.len(),
            0 <= i <= n,
            bg == last_bg(cmds@, i as int),
            fg == last_fg(cmds@, i as int),
            khz == last_khz(cmds@, i as int),
        decreases n - i,
    {
        match &cmds[i] {
            Cmd::Bg(col) => bg = Some(*col),
            Cmd::Fg(col) => fg = Some(*col),
            Cmd::Khz(k) => khz = Some(*k),
            _ => {},
        }
        i = i + 1;
    }

    // Check that the stack is never popped when it is empty.
    let mut stack_size: isize = 0;
    let mut error_kind: Option<ErrorKind> = None;
    let mut index: usize = 0;
    while index < n
        invariant_except_break
            error_kind is None,
            stack_size == depth(cmds@, index as int),
            first_underflow(cmds@, index as int) is None,
            0 <= stack_size <= index,
        invariant
            n == cmds@.len(),
            n <= isize::MAX,
            0 <= index <= n,
        ensures
            error_kind is None ==> {
                &&& stack_size == depth(cmds@, n as int)
                &&& first_underflow(cmds@, n as int) is None
            },
            error_kind matches Some(k) ==> {
                &&& first_underflow(cmds@, n as int) matches Some(j)
                &&& k == ErrorKind::UnderflowedStack {
                    index: j as usize,
                    stack_size: depth(cmds@, j) as isize,
                }
            },
        decreases n - index,
    {
        let change: isize = match &cmds[index] {
            Cmd::Var | Cmd::NumF(_) | Cmd::NumI(_) | Cmd::Hex(_) => 1,
            Cmd::Fg(_) | Cmd::Bg(_) | Cmd::Khz(_) | Cmd::Comment(_) => {
                index = index + 1;
                continue;
            },
            Cmd::Sin | Cmd::Cos | Cmd::Tan => 0,
            Cmd::Arr(x) => -saturating_as_isize(*x),
            Cmd::Cond => -2,
            Cmd::Add | Cmd::Sub | Cmd::Mul | Cmd::Div | Cmd::Mod => -1,
            Cmd::Shl | Cmd::Shr | Cmd::And | Cmd::Orr | Cmd::Xor => -1,
            Cmd::Pow | Cmd::AddF | Cmd::SubF | Cmd::MulF | Cmd::DivF | Cmd::ModF => -1,
            Cmd::Lt | Cmd::Gt | Cmd::Leq | Cmd::Geq | Cmd::Eq | Cmd::Neq => -1,
        };
        assert(change == stack_change(cmds@[index as int]));
        if stack_size + change <= 0 {
            proof {
                assert(first_underflow(cmds@, index + 1) == Some(index as int));
                lemma_first_underflow_stable(cmds@, index as int, n as int);
            }
            error_kind = Some(ErrorKind::UnderflowedStack { index, stack_size });
            break;
        }
        stack_size = stack_size + change;
        index = index + 1;
    }

    if stack_size == 0 && error_kind.is_none() {
        error_kind = Some(ErrorKind::EmptyProgram);
    }
    match error_kind {
        None => {
            let p = Program { cmds, bg, fg, khz };
            Ok(p)
        },
        Some(error_kind) => Err(CompileError { cmds, error_kind }),
    }
}

} // verus!
