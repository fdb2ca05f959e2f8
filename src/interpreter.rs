//! The tree interpreter for the run-length-encoded and peephole IRs.
use vstd::prelude::*;

use crate::common::{BfError, Instruction};
use crate::peephole::Statement;
use crate::semantics::{
    find_zero_left, find_zero_right, min_nat, run_loop, run_seq, run_stmt, step_instr, Outcome,
};
use crate::state::{Machine, State};

verus! {

/// How an executable run result reads as an outcome.
pub open spec fn outcome_of(st: &State, r: Result<u64, BfError>) -> Outcome {
    (st@, match r {
        Ok(f) => Ok(f as nat),
        Err(e) => Err(e),
    })
}

/// An error from a unit-valued state operation, with the budget carried through.
fn check(r: Result<(), BfError>, fuel: u64) -> (o: Result<u64, BfError>)
    ensures
        o == match r {
            Ok(_) => Ok::<u64, BfError>(fuel),
            Err(e) => Err(e),
        },
{
    match r {
        Ok(()) => Ok(fuel),
        Err(e) => Err(e),
    }
}

fn find_zero(state: &mut State, right: bool, k: usize, fuel: u64) -> (r: Result<u64, BfError>)
    requires
        old(state).wf(),
    ensures
        final(state).wf(),
        outcome_of(final(state), r) == if right {
            find_zero_right(old(state)@, k as int, fuel as nat)
        } else {
            find_zero_left(old(state)@, k as int, fuel as nat)
        },
        r matches Ok(f2) ==> f2 <= fuel,
{
    let mut f = fuel;
    loop
        invariant
            state.wf(),
            f <= fuel,
            (if right {
                find_zero_right(old(state)@, k as int, fuel as nat)
            } else {
                find_zero_left(old(state)@, k as int, fuel as nat)
            }) == (if right {
                find_zero_right(state@, k as int, f as nat)
            } else {
                find_zero_left(state@, k as int, f as nat)
            }),
        decreases f,
    {
        if state.load() == 0 {
            return Ok(f);
        }
        if f == 0 {
            return Err(BfError::StepLimit);
        }
        let moved = if right {
            state.right(k)
        } else {
            state.left(k)
        };
        match moved {
            Ok(()) => {},
            Err(e) => {
                return Err(e);
            },
        }
        f = f - 1;
    }
}

/// Performs one non-loop instruction; a jump does nothing here.
pub fn execute(i: Instruction, state: &mut State, fuel: u64) -> (r: Result<u64, BfError>)
    requires
        old(state).wf(),
    ensures
        final(state).wf(),
        outcome_of(final(state), r) == step_instr(old(state)@, i, fuel as nat),
        r matches Ok(f2) ==> f2 <= fuel,
{
    match i {
        Instruction::Left(n) => check(state.left(n), fuel),
        Instruction::Right(n) => check(state.right(n), fuel),
        Instruction::Add(d) => {
            state.up(d);
            Ok(fuel)
        },
        Instruction::In => {
            state.read();
            Ok(fuel)
        },
        Instruction::Out => {
            state.write();
            Ok(fuel)
        },
        Instruction::SetZero => {
            state.store(0);
            Ok(fuel)
        },
        Instruction::OffsetAddRight(k) => check(state.offset_add_right(k), fuel),
        Instruction::OffsetAddLeft(k) => check(state.offset_add_left(k), fuel),
        Instruction::FindZeroRight(k) => find_zero(state, true, k, fuel),
        Instruction::FindZeroLeft(k) => find_zero(state, false, k, fuel),
        Instruction::JumpZero(_) | Instruction::JumpNotZero(_) => Ok(fuel),
    }
}

/// Runs one statement on `state` with a budget of `fuel` steps; returns the
/// budget that is left, or the first error.
pub fn interpret_instruction(stm: &Statement, state: &mut State, fuel: u64) -> (r: Result<
    u64,
    BfError,
>)
    requires
        old(state).wf(),
    ensures
        final(state).wf(),
        outcome_of(final(state), r) == run_stmt(*stm, old(state)@, fuel as nat),
        r matches Ok(f2) ==> f2 <= fuel,
    decreases fuel, *stm, 0nat,
{
    match stm {
        Statement::Instr(i) => execute(*i, state, fuel),
        Statement::Loop(body) => {
            let ghost m0 = state@;
            assert(run_stmt(*stm, m0, fuel as nat) == run_loop(body@, m0, fuel as nat));
            let mut f = fuel;
            loop
                invariant
                    state.wf(),
                    m0 == old(state)@,
                    *stm == Statement::Loop(*body),
                    run_stmt(*stm, m0, fuel as nat) == run_loop(body@, m0, fuel as nat),
                    f <= fuel,
                    run_loop(body@, m0, fuel as nat) == run_loop(body@, state@, f as nat),
                decreases f,
            {
                if state.load() == 0 {
                    return Ok(f);
                }
                assert(decreases_to!(*stm => body@));
                let r = interpret(body, state, f);
                match r {
                    Ok(f2) => {
                        f = if f2 <= f { f2 } else { f };
                    },
                    Err(e) => {
                        return Err(e);
                    },
                }
                if state.load() == 0 {
                    return Ok(f);
                }
                if f == 0 {
                    return Err(BfError::StepLimit);
                }
                f = f - 1;
            }
        },
    }
}

/// Runs a sequence of statements on `state` with a budget of `fuel` steps;
/// returns the budget that is left, or the first error.
pub fn interpret(prog: &Vec<Statement>, state: &mut State, fuel: u64) -> (r: Result<u64, BfError>)
    requires
        old(state).wf(),
    ensures
        final(state).wf(),
        outcome_of(final(state), r) == run_seq(prog@, old(state)@, fuel as nat),
        r matches Ok(f2) ==> f2 <= fuel,
    decreases fuel, prog@, 1nat,
{
    let ghost m0 = state@;
    let mut f = fuel;
    let mut i: usize = 0;
    while i < prog.len()
        invariant
            state.wf(),
            m0 == old(state)@,
            0 <= i <= prog@.len(),
            f <= fuel,
            run_seq(prog@.subrange(0, i as int), m0, fuel as nat) == (state@, Ok::<nat, BfError>(f as nat)),
        decreases prog@.len() - i,
    {
        assert(prog@.subrange(0, i + 1).subrange(0, i as int) =~= prog@.subrange(0, i as int));
        assert(prog@.subrange(0, i + 1)[i as int] == prog@[i as int]);
        let r = interpret_instruction(&prog[i], state, f);
        assert(min_nat(f as nat, fuel as nat) == f as nat);
        assert(run_seq(prog@.subrange(0, i + 1), m0, fuel as nat) == outcome_of(state, r));
        match r {
            Ok(f2) => {
                f = f2;
            },
            Err(e) => {
                proof {
                    lemma_run_seq_error(prog@, m0, fuel as nat, (i + 1) as nat);
                }
                return Err(e);
            },
        }
        i = i + 1;
    }
    assert(prog@.subrange(0, i as int) =~= prog@);
    Ok(f)
}

/// The result of a run as its caller sees it: the budget left or the
/// error, and the bytes written.
pub open spec fn observed(o: Outcome, r: (Result<u64, BfError>, Vec<u8>)) -> bool {
    &&& r.1@ == o.0.output
    &&& match o.1 {
        Ok(f) => r.0 == Ok::<u64, BfError>(f as u64),
        Err(e) => r.0 == Err::<u64, BfError>(e),
    }
}

/// Runs a program on a fresh tape of `capacity` cells that reads `input`,
/// with a budget of `fuel` steps.
pub fn interpret_memory(prog: &Vec<Statement>, capacity: usize, input: Vec<u8>, fuel: u64) -> (r: (
    Result<u64, BfError>,
    Vec<u8>,
))
    requires
        capacity >= 1,
    ensures
        observed(run_seq(prog@, Machine::fresh(capacity as nat, input@), fuel as nat), r),
{
    let mut state = State::new(capacity, input);
    let r = interpret(prog, &mut state, fuel);
    (r, state.into_output())
}

/// Once a prefix of a sequence stops on an error, the whole sequence stops there.
proof fn lemma_run_seq_error(s: Seq<Statement>, m: crate::state::Machine, fuel: nat, i: nat)
    requires
        i <= s.len(),
        run_seq(s.subrange(0, i as int), m, fuel).1 is Err,
    ensures
        run_seq(s, m, fuel) == run_seq(s.subrange(0, i as int), m, fuel),
    decreases s.len() - i,
{
    if i < s.len() {
        let t = s.subrange(0, (i + 1) as int);
        assert(t.subrange(0, i as int) =~= s.subrange(0, i as int));
        lemma_run_seq_error(s, m, fuel, i + 1);
    } else {
        assert(s.subrange(0, i as int) =~= s);
    }
}

} // verus!
