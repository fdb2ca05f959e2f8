//! The unoptimized abstract syntax tree, and the parser that builds it from
//! source bytes.
//!
//! Instructions correspond directly to source commands, except that loops
//! are subtrees rather than begin and end markers.
use vstd::prelude::*;

use crate::common::{BfError, Command};
use crate::interpreter::{interpret_memory, observed};
use crate::peephole::{trees_of, Statement};
use crate::rle::{lift, lift_program};
use crate::semantics::run_seq;
use crate::state::Machine;

verus! {

/// An unoptimized instruction.
#[derive(Debug, PartialEq, Eq)]
pub enum Instruction {
    /// A non-loop command; never `Begin` or `End`.
    Cmd(Command),
    /// A loop surrounding a sequence of instructions.
    Loop(Vec<Instruction>),
}

/// An unoptimized program.
pub type Program = Vec<Instruction>;

/// The bytes that are commands: `+ - < > , . [ ]`.
pub open spec fn is_command(b: u8) -> bool {
    b == 43u8 || b == 45u8 || b == 60u8 || b == 62u8 || b == 44u8 || b == 46u8 || b == 91u8
        || b == 93u8
}

/// The command bytes of `b`, in order; every other byte is dropped.
pub open spec fn command_bytes(b: Seq<u8>) -> Seq<u8>
    decreases b.len(),
{
    if b.len() == 0 {
        seq![]
    } else {
        let rest = command_bytes(b.subrange(0, b.len() - 1));
        if is_command(b[b.len() - 1]) {
            rest.push(b[b.len() - 1])
        } else {
            rest
        }
    }
}

/// How a bracket changes the loop depth.
pub open spec fn bracket_delta(b: u8) -> int {
    if b == 91u8 {
        1
    } else if b == 93u8 {
        -1
    } else {
        0
    }
}

/// The number of `[` minus the number of `]` in `b`.
pub open spec fn depth(b: Seq<u8>) -> int
    decreases b.len(),
{
    if b.len() == 0 {
        0
    } else {
        depth(b.subrange(0, b.len() - 1)) + bracket_delta(b[b.len() - 1])
    }
}

/// Some `]` of `b` closes no `[` before it.
pub open spec fn has_unmatched_end(b: Seq<u8>) -> bool {
    exists|k: int| 0 <= k <= b.len() && #[trigger] depth(b.subrange(0, k)) < 0
}

/// The source byte of a command.
pub open spec fn command_byte(c: Command) -> u8 {
    match c {
        Command::Left => 60u8,
        Command::Right => 62u8,
        Command::Add(d) => if d == 1 { 43u8 } else { 45u8 },
        Command::In => 44u8,
        Command::Out => 46u8,
        Command::Begin => 91u8,
        Command::End => 93u8,
    }
}

/// The command text of a program.
pub open spec fn unparse(s: Seq<Instruction>) -> Seq<u8>
    decreases s, 1nat,
{
    if s.len() == 0 {
        seq![]
    } else {
        unparse(s.subrange(0, s.len() - 1)) + unparse_one(s[s.len() - 1])
    }
}

pub open spec fn unparse_one(i: Instruction) -> Seq<u8>
    decreases i, 0nat,
{
    match i {
        Instruction::Cmd(c) => seq![command_byte(c)],
        Instruction::Loop(body) => seq![91u8] + unparse(body@) + seq![93u8],
    }
}

/// A command that the parser produces.
pub open spec fn parsed_command(c: Command) -> bool {
    match c {
        Command::Left | Command::Right | Command::In | Command::Out => true,
        Command::Add(d) => d == 1 || d == 255,
        Command::Begin | Command::End => false,
    }
}

/// Every command of the tree is one that the parser produces.
pub open spec fn wf_program(s: Seq<Instruction>) -> bool
    decreases s, 1nat,
{
    if s.len() == 0 {
        true
    } else {
        wf_program(s.subrange(0, s.len() - 1)) && wf_instruction(s[s.len() - 1])
    }
}

pub open spec fn wf_instruction(i: Instruction) -> bool
    decreases i, 0nat,
{
    match i {
        Instruction::Cmd(c) => parsed_command(c),
        Instruction::Loop(body) => wf_program(body@),
    }
}

/// The text of a stack of open loops: each frame after the first follows an `[`.
pub open spec fn frames_text(fs: Seq<Seq<Instruction>>) -> Seq<u8>
    decreases fs.len(),
{
    if fs.len() <= 1 {
        if fs.len() == 0 {
            seq![]
        } else {
            unparse(fs[0])
        }
    } else {
        frames_text(fs.subrange(0, fs.len() - 1)) + seq![91u8] + unparse(fs[fs.len() - 1])
    }
}

pub open spec fn frames_view(fs: Seq<Vec<Instruction>>) -> Seq<Seq<Instruction>> {
    fs.map_values(|v: Vec<Instruction>| v@)
}

proof fn lemma_unparse_push(s: Seq<Instruction>, i: Instruction)
    ensures
        unparse(s.push(i)) == unparse(s) + unparse_one(i),
        wf_program(s.push(i)) == (wf_program(s) && wf_instruction(i)),
{
    assert(s.push(i).subrange(0, s.len() as int) =~= s);
}

/// Each instruction of a well-formed program is well-formed.
pub proof fn lemma_wf_element(s: Seq<Instruction>, k: int)
    requires
        wf_program(s),
        0 <= k < s.len(),
    ensures
        wf_instruction(s[k]),
    decreases s.len(),
{
    if k < s.len() - 1 {
        let p = s.subrange(0, s.len() - 1);
        lemma_wf_element(p, k);
        assert(p[k] == s[k]);
    }
}

/// Runs a syntax tree, command by command, on a fresh tape of `capacity`
/// cells that reads `input`, with a budget of `fuel` steps.
pub fn interpret(program: &Vec<Instruction>, capacity: usize, input: Vec<u8>, fuel: u64) -> (r: (
    Result<u64, BfError>,
    Vec<u8>,
))
    requires
        capacity >= 1,
    ensures
        exists|s: Seq<Statement>|
            trees_of(s) == lift(program@) && observed(
                #[trigger] run_seq(s, Machine::fresh(capacity as nat, input@), fuel as nat),
                r,
            ),
{
    let lifted = lift_program(program);
    interpret_memory(&lifted, capacity, input, fuel)
}

fn command_of(b: u8) -> (r: Option<Command>)
    ensures
        match r {
            Some(c) => is_command(b) && b != 91u8 && b != 93u8 && parsed_command(c)
                && command_byte(c) == b,
            None => !is_command(b) || b == 91u8 || b == 93u8,
        },
{
    if b == 43u8 {
        Some(Command::Add(1))
    } else if b == 45u8 {
        Some(Command::Add(255))
    } else if b == 60u8 {
        Some(Command::Left)
    } else if b == 62u8 {
        Some(Command::Right)
    } else if b == 44u8 {
        Some(Command::In)
    } else if b == 46u8 {
        Some(Command::Out)
    } else {
        None
    }
}

/// Parses source bytes. Bytes other than `+ - < > , . [ ]` are ignored.
/// On success the tree's command text is exactly the command bytes of the
/// input. The error is `UnmatchedEnd` when some `]` closes no earlier `[`,
/// else `UnmatchedBegin` when some `[` is never closed.
pub fn parse_program(input: &[u8]) -> (r: Result<Vec<Instruction>, BfError>)
    ensures
        match r {
            Ok(p) => unparse(p@) == command_bytes(input@) && wf_program(p@)
                && !has_unmatched_end(input@) && depth(input@) == 0,
            Err(BfError::UnmatchedEnd) => has_unmatched_end(input@),
            Err(BfError::UnmatchedBegin) => !has_unmatched_end(input@) && depth(input@) > 0,
            Err(_) => false,
        },
{
    let mut stack: Vec<Vec<Instruction>> = Vec::new();
    stack.push(Vec::new());
    let mut i: usize = 0;
    proof {
        assert(frames_view(stack@) =~= seq![Seq::<Instruction>::empty()]);
        assert(input@.subrange(0, 0) =~= Seq::<u8>::empty());
        assert(command_bytes(input@.subrange(0, 0)) == Seq::<u8>::empty());
    }
    while i < input.len()
        invariant
            0 <= i <= input@.len(),
            stack@.len() >= 1,
            stack@.len() <= i + 1,
            frames_text(frames_view(stack@)) == command_bytes(input@.subrange(0, i as int)),
            forall|k: int| 0 <= k < stack@.len() ==> wf_program(#[trigger] stack@[k]@),
            depth(input@.subrange(0, i as int)) == stack@.len() - 1,
            forall|k: int| 0 <= k <= i ==> #[trigger] depth(input@.subrange(0, k)) >= 0,
        decreases input@.len() - i,
    {
        let b = input[i];
        let ghost pre = input@.subrange(0, i as int);
        let ghost next = input@.subrange(0, i + 1);
        proof {
            assert(next.subrange(0, i as int) =~= pre);
            assert(next[i as int] == b);
        }
        let ghost fs0 = frames_view(stack@);
        if b == 91u8 {
            stack.push(Vec::new());
            proof {
                let fs = frames_view(stack@);
                assert(fs.subrange(0, fs.len() - 1) =~= fs0);
                assert(fs[fs.len() - 1] =~= Seq::<Instruction>::empty());
                assert(frames_text(fs) =~= command_bytes(next));
            }
        } else if b == 93u8 {
            if stack.len() == 1 {
                proof {
                    assert(depth(next) < 0);
                    assert(has_unmatched_end(input@));
                }
                return Err(BfError::UnmatchedEnd);
            }
            let body = stack.pop().unwrap();
            let mut parent = stack.pop().unwrap();
            let ghost pv = parent@;
            parent.push(Instruction::Loop(body));
            stack.push(parent);
            proof {
                let fs = frames_view(stack@);
                let n = fs0.len();
                lemma_unparse_push(pv, Instruction::Loop(body));
                assert(fs0[n - 1] == body@);
                assert(fs0[n - 2] == pv);
                assert(fs0.subrange(0, n - 1).subrange(0, n - 2) =~= fs0.subrange(0, n - 2));
                assert(fs.subrange(0, fs.len() - 1) =~= fs0.subrange(0, n - 2));
                assert(fs0.subrange(0, n - 1)[n - 2] == pv);
                assert(wf_program(stack@[stack@.len() - 1]@)) by {
                    assert(wf_program(fs0[n - 1]));
                    assert(wf_program(fs0[n - 2]));
                }
                if n - 1 <= 1 {
                    assert(frames_text(fs0.subrange(0, n - 1)) == unparse(pv));
                    assert(frames_text(fs) == unparse(fs[0]));
                } else {
                    assert(frames_text(fs0.subrange(0, n - 1)) == frames_text(fs0.subrange(0, n - 2))
                        + seq![91u8] + unparse(pv));
                }
                assert(frames_text(fs) =~= command_bytes(next));
            }
        } else {
            match command_of(b) {
                Some(c) => {
                    let mut top = stack.pop().unwrap();
                    let ghost tv = top@;
                    top.push(Instruction::Cmd(c));
                    stack.push(top);
                    proof {
                        let fs = frames_view(stack@);
                        let n = fs0.len();
                        lemma_unparse_push(tv, Instruction::Cmd(c));
                        assert(fs0[n - 1] == tv);
                        assert(fs.subrange(0, n - 1) =~= fs0.subrange(0, n - 1));
                        assert(wf_program(stack@[stack@.len() - 1]@)) by {
                            assert(wf_program(fs0[n - 1]));
                        }
                        if n == 1 {
                            assert(frames_text(fs) =~= command_bytes(next));
                        } else {
                            assert(frames_text(fs) =~= command_bytes(next));
                        }
                    }
                },
                None => {
                    proof {
                        assert(frames_view(stack@) == fs0);
                    }
                },
            }
        }
        i = i + 1;
    }
    proof {
        assert(input@.subrange(0, i as int) =~= input@);
    }
    if stack.len() > 1 {
        proof {
            assert(!has_unmatched_end(input@));
        }
        return Err(BfError::UnmatchedBegin);
    }
    let ghost fs = frames_view(stack@);
    proof {
        assert(wf_program(stack@[0]@));
        assert(fs[0] == stack@[0]@);
    }
    let program = stack.pop().unwrap();
    proof {
        assert(!has_unmatched_end(input@));
    }
    Ok(program)
}

} // verus!
