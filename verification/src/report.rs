//! Messages for rejected programs.
use vstd::prelude::*;

use crate::cmd::{is_meta, Cmd};
use crate::color::Color;
use crate::compile::{check, depth, first_underflow, underflows_at, CompileError, ErrorKind};
use crate::format::{cmd_text, prints, prints_all, push_cmd_text};
use crate::numbers::{decimal, digits_of, push_decimal, push_unsigned};
use crate::text::push_str;

verus! {

broadcast use vstd::string::group_string_axioms;

/// How `{:?}` writes a string: quoted, with escapes.
pub uninterp spec fn quoted(s: Seq<char>) -> Seq<char>;

/// `format!("{:?}", s)` (std's `Debug` for `str`): the string in double
/// quotes, with quotes, backslashes and unprintable characters escaped. The
/// result is named `quoted` and depends on the characters of `s` alone.
#[verifier::external_body]
fn debug_str(s: &str) -> (r: String)
    ensures
        r@ == quoted(s@),
{
    format!("{:?}", s)
}

/// `{:?}` of a color: `Color([r, g, b])`.
pub open spec fn color_debug(c: Color) -> Seq<char> {
    "Color(["@ + digits_of(c.0[0] as nat, 10) + ", "@ + digits_of(c.0[1] as nat, 10) + ", "@
        + digits_of(c.0[2] as nat, 10) + "])"@
}

/// `{:?}` of a metadata instruction, e.g. `Khz(8)` or `Comment("x")`.
pub open spec fn meta_debug(c: Cmd) -> Seq<char> {
    match c {
        Cmd::Fg(col) => "Fg("@ + color_debug(col) + ")"@,
        Cmd::Bg(col) => "Bg("@ + color_debug(col) + ")"@,
        Cmd::Khz(k) => "Khz("@ + digits_of(k as nat, 10) + ")"@,
        Cmd::Comment(s) => "Comment("@ + quoted(s@) + ")"@,
        _ => Seq::empty(),
    }
}

/// The texts `ts` separated by `, `.
pub open spec fn comma_joined(ts: Seq<Seq<char>>) -> Seq<char>
    decreases ts.len(),
{
    if ts.len() == 0 {
        Seq::empty()
    } else if ts.len() == 1 {
        ts[0]
    } else {
        comma_joined(ts.drop_last()) + ", "@ + ts.last()
    }
}

/// The message for a rejected program `cmds`; `pr` prints a double.
pub open spec fn rejection_message(cmds: Seq<Cmd>, kind: ErrorKind, pr: spec_fn(u64) -> Seq<char>) -> Seq<char> {
    match kind {
        ErrorKind::UnderflowedStack { index, stack_size } => "Attempt to pop beyond stack size. instruction: "@
            + cmd_text(cmds[index as int], pr) + " index: "@ + digits_of(index as nat, 10)
            + ", size of stack "@ + decimal(stack_size as int),
        ErrorKind::EmptyProgram => "Program is empty: ["@ + comma_joined(
            cmds.map_values(|c: Cmd| meta_debug(c)),
        ) + "]"@,
    }
}

proof fn lemma_first_underflow_bounds(cmds: Seq<Cmd>, n: int)
    ensures
        first_underflow(cmds, n) matches Some(i) ==> 0 <= i < n && underflows_at(cmds, i),
    decreases n,
{
    if n > 0 {
        lemma_first_underflow_bounds(cmds, n - 1);
    }
}

/// A program that never underflows has a depth of at least zero, and of at
/// least one once it holds an instruction that is not metadata.
proof fn lemma_depth_after_value(cmds: Seq<Cmd>, n: int)
    requires
        0 <= n <= cmds.len(),
        first_underflow(cmds, n) is None,
    ensures
        depth(cmds, n) >= 0,
        (exists|i: int| 0 <= i < n && !is_meta(#[trigger] cmds[i])) ==> depth(cmds, n) >= 1,
    decreases n,
{
    if n > 0 {
        lemma_depth_after_value(cmds, n - 1);
        if exists|i: int| 0 <= i < n && !is_meta(#[trigger] cmds[i]) {
            let i = choose|i: int| 0 <= i < n && !is_meta(#[trigger] cmds[i]);
            if i < n - 1 {
                assert(exists|j: int| 0 <= j < n - 1 && !is_meta(#[trigger] cmds[j]));
            }
        }
    }
}

/// The instructions of a program rejected as empty are all metadata.
proof fn lemma_empty_is_meta(cmds: Seq<Cmd>)
    requires
        check(cmds) == Some(ErrorKind::EmptyProgram),
    ensures
        forall|i: int| 0 <= i < cmds.len() ==> is_meta(#[trigger] cmds[i]),
{
    lemma_depth_after_value(cmds, cmds.len() as int);
}

fn push_color_debug(out: &mut String, c: Color)
    ensures
        final(out)@ == old(out)@ + color_debug(c),
{
    let ghost start = out@;
    push_str(out, "Color([");
    push_unsigned(out, c.0[0] as u64);
    push_str(out, ", ");
    push_unsigned(out, c.0[1] as u64);
    push_str(out, ", ");
    push_unsigned(out, c.0[2] as u64);
    push_str(out, "])");
    assert(out@ =~= start + color_debug(c));
}

fn push_meta_debug(out: &mut String, c: &Cmd)
    requires
        is_meta(*c),
    ensures
        final(out)@ == old(out)@ + meta_debug(*c),
{
    let ghost start = out@;
    match c {
        Cmd::Fg(col) => {
            push_str(out, "Fg(");
            push_color_debug(out, *col);
            push_str(out, ")");
        },
        Cmd::Bg(col) => {
            push_str(out, "Bg(");
            push_color_debug(out, *col);
            push_str(out, ")");
        },
        Cmd::Khz(k) => {
            push_str(out, "Khz(");
            push_unsigned(out, *k as u64);
            push_str(out, ")");
        },
        Cmd::Comment(s) => {
            push_str(out, "Comment(");
            let q = debug_str(s.as_str());
            push_str(out, q.as_str());
            push_str(out, ")");
        },
        _ => {},
    }
    assert(out@ =~= start + meta_debug(*c));
}

impl CompileError {
    /// The message for this error, e.g. `Attempt to pop beyond stack size.
    /// instruction: + index: 0, size of stack 0`; doubles are printed by
    /// `print_float`, which gets their bits.
    pub fn describe<P: Fn(u64) -> String>(&self, print_float: &P) -> (r: String)
        requires
            prints_all(*print_float),
        ensures
            forall|pr: spec_fn(u64) -> Seq<char>|
                prints(*print_float, pr) ==> r@ == rejection_message(self.code(), self.kind(), pr),
    {
        proof {
            use_type_invariant(self);
        }
        let cmds = self.as_code();
        let mut out = String::new();
        match self.error_kind() {
            ErrorKind::UnderflowedStack { index, stack_size } => {
                proof {
                    lemma_first_underflow_bounds(self.code(), self.code().len() as int);
                }
                push_str(&mut out, "Attempt to pop beyond stack size. instruction: ");
                let ghost mid = out@;
                push_cmd_text(&mut out, &cmds[*index], print_float);
                let ghost after = out@;
                push_str(&mut out, " index: ");
                push_unsigned(&mut out, *index as u64);
                push_str(&mut out, ", size of stack ");
                push_decimal(&mut out, *stack_size as i64);
                proof {
                    assert forall|pr: spec_fn(u64) -> Seq<char>| prints(*print_float, pr) implies out@
                        == rejection_message(self.code(), self.kind(), pr) by {
                        assert(after == mid + cmd_text(self.code()[*index as int], pr));
                        assert(out@ =~= rejection_message(self.code(), self.kind(), pr));
                    }
                }
            },
            ErrorKind::EmptyProgram => {
                proof {
                    lemma_empty_is_meta(self.code());
                }
                let ghost items = self.code().map_values(|c: Cmd| meta_debug(c));
                push_str(&mut out, "Program is empty: [");
                let ghost start = out@;
                let n = cmds.len();
                let mut i: usize = 0;
                while i < n
                    invariant
                        n == self.code().len(),
                        cmds@ == self.code(),
                        0 <= i <= n,
                        items == self.code().map_values(|c: Cmd| meta_debug(c)),
                        forall|j: int| 0 <= j < n ==> is_meta(#[trigger] self.code()[j]),
                        out@ == start + comma_joined(items.take(i as int)),
                    decreases n - i,
                {
                    if i > 0 {
                        push_str(&mut out, ", ");
                    }
                    push_meta_debug(&mut out, &cmds[i]);
                    proof {
                        let t = items.take(i + 1);
                        assert(t.drop_last() =~= items.take(i as int));
                        if i == 0 {
                            assert(comma_joined(items.take(0)) =~= Seq::<char>::empty());
                        }
                    }
                    i = i + 1;
                }
                push_str(&mut out, "]");
                proof {
                    assert(items.take(n as int) =~= items);
                    assert(out@ =~= "Program is empty: ["@ + comma_joined(items) + "]"@);
                }
            },
        }
        out
    }
}

} // verus!
