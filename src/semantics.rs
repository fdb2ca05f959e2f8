//! The meaning of a program tree: how it changes a machine, with a step budget.
//!
//! One step of the budget is spent each time a loop goes back to the start
//! of its body, and on each head movement of a `FindZero` instruction; a
//! run that would need more stops with `StepLimit`.
use vstd::prelude::*;

use crate::common::{BfError, Instruction};
use crate::peephole::{tree_of, trees_of, Statement, Tree};
use crate::state::Machine;

verus! {

/// The outcome of a run: the machine where it stopped, and either the
/// budget that is left or the error that stopped it.
pub type Outcome = (Machine, Result<nat, BfError>);

pub open spec fn lift(r: Result<Machine, BfError>, m: Machine, fuel: nat) -> Outcome {
    match r {
        Ok(m2) => (m2, Ok(fuel)),
        Err(e) => (m, Err(e)),
    }
}

/// Moves right by `k` until the current cell is zero.
pub open spec fn find_zero_right(m: Machine, k: int, fuel: nat) -> Outcome
    decreases fuel,
{
    if m.cell() == 0 {
        (m, Ok(fuel))
    } else if fuel == 0 {
        (m, Err(BfError::StepLimit))
    } else {
        match m.right(k) {
            Ok(m2) => find_zero_right(m2, k, (fuel - 1) as nat),
            Err(e) => (m, Err(e)),
        }
    }
}

/// Moves left by `k` until the current cell is zero.
pub open spec fn find_zero_left(m: Machine, k: int, fuel: nat) -> Outcome
    decreases fuel,
{
    if m.cell() == 0 {
        (m, Ok(fuel))
    } else if fuel == 0 {
        (m, Err(BfError::StepLimit))
    } else {
        match m.left(k) {
            Ok(m2) => find_zero_left(m2, k, (fuel - 1) as nat),
            Err(e) => (m, Err(e)),
        }
    }
}

/// The effect of one non-loop instruction. Jumps have no meaning inside a tree.
pub open spec fn step_instr(m: Machine, i: Instruction, fuel: nat) -> Outcome {
    match i {
        Instruction::Left(n) => lift(m.left(n as int), m, fuel),
        Instruction::Right(n) => lift(m.right(n as int), m, fuel),
        Instruction::Add(d) => (m.add(d), Ok(fuel)),
        Instruction::In => (m.read(), Ok(fuel)),
        Instruction::Out => (m.write(), Ok(fuel)),
        Instruction::SetZero => (m.with_cell(0), Ok(fuel)),
        Instruction::OffsetAddRight(k) => lift(m.offset_add_right(k as int), m, fuel),
        Instruction::OffsetAddLeft(k) => lift(m.offset_add_left(k as int), m, fuel),
        Instruction::FindZeroRight(k) => find_zero_right(m, k as int, fuel),
        Instruction::FindZeroLeft(k) => find_zero_left(m, k as int, fuel),
        Instruction::JumpZero(_) | Instruction::JumpNotZero(_) => (m, Ok(fuel)),
    }
}

pub open spec fn min_nat(a: nat, b: nat) -> nat {
    if a <= b { a } else { b }
}

/// Runs one statement.
pub open spec fn run_stmt(st: Statement, m: Machine, fuel: nat) -> Outcome
    decreases fuel, st, 0nat,
{
    match st {
        Statement::Instr(i) => step_instr(m, i, fuel),
        Statement::Loop(body) => run_loop(body@, m, fuel),
    }
}

/// Runs a loop: the body, again and again, while the current cell is not
/// zero. Each return to the start of the body spends one step.
pub open spec fn run_loop(body: Seq<Statement>, m: Machine, fuel: nat) -> Outcome
    decreases fuel, body, 2nat,
{
    if m.cell() == 0 {
        (m, Ok(fuel))
    } else {
        let (m2, r) = run_seq(body, m, fuel);
        match r {
            Ok(f2) => {
                let f = min_nat(f2, fuel);
                if m2.cell() == 0 {
                    (m2, Ok(f))
                } else if f == 0 {
                    (m2, Err(BfError::StepLimit))
                } else {
                    run_loop(body, m2, (f - 1) as nat)
                }
            },
            Err(e) => (m2, Err(e)),
        }
    }
}

/// Runs a sequence of statements in order, stopping at the first error.
pub open spec fn run_seq(s: Seq<Statement>, m: Machine, fuel: nat) -> Outcome
    decreases fuel, s, 1nat,
{
    if s.len() == 0 {
        (m, Ok(fuel))
    } else {
        let (m2, r) = run_seq(s.subrange(0, s.len() - 1), m, fuel);
        match r {
            Ok(f2) => run_stmt(s[s.len() - 1], m2, min_nat(f2, fuel)),
            Err(e) => (m2, Err(e)),
        }
    }
}

/// Runs one tree: the same meaning as `run_stmt`, on the model.
pub open spec fn trun_one(t: Tree, m: Machine, fuel: nat) -> Outcome
    decreases fuel, t, 0nat,
{
    match t {
        Tree::Op(i) => step_instr(m, i, fuel),
        Tree::Block(body) => trun_loop(body, m, fuel),
    }
}

/// Runs a loop of the model, as `run_loop` does.
pub open spec fn trun_loop(body: Seq<Tree>, m: Machine, fuel: nat) -> Outcome
    decreases fuel, body, 2nat,
{
    if m.cell() == 0 {
        (m, Ok(fuel))
    } else {
        let (m2, r) = trun_seq(body, m, fuel);
        match r {
            Ok(f2) => {
                let f = min_nat(f2, fuel);
                if m2.cell() == 0 {
                    (m2, Ok(f))
                } else if f == 0 {
                    (m2, Err(BfError::StepLimit))
                } else {
                    trun_loop(body, m2, (f - 1) as nat)
                }
            },
            Err(e) => (m2, Err(e)),
        }
    }
}

/// Runs a sequence of trees, as `run_seq` does.
pub open spec fn trun_seq(s: Seq<Tree>, m: Machine, fuel: nat) -> Outcome
    decreases fuel, s, 1nat,
{
    if s.len() == 0 {
        (m, Ok(fuel))
    } else {
        let (m2, r) = trun_seq(s.subrange(0, s.len() - 1), m, fuel);
        match r {
            Ok(f2) => trun_one(s[s.len() - 1], m2, min_nat(f2, fuel)),
            Err(e) => (m2, Err(e)),
        }
    }
}

/// A run of statements is the run of their model.
pub proof fn lemma_run_seq_model(s: Seq<Statement>, m: Machine, fuel: nat)
    ensures
        run_seq(s, m, fuel) == trun_seq(trees_of(s), m, fuel),
    decreases fuel, s, 1nat,
{
    if s.len() > 0 {
        let p = s.subrange(0, s.len() - 1);
        let t = trees_of(s);
        assert(t.subrange(0, t.len() - 1) =~= trees_of(p));
        lemma_run_seq_model(p, m, fuel);
        let (m2, r) = run_seq(p, m, fuel);
        if let Ok(f2) = r {
            lemma_run_stmt_model(s[s.len() - 1], m2, min_nat(f2, fuel));
        }
    }
}

proof fn lemma_run_stmt_model(st: Statement, m: Machine, fuel: nat)
    ensures
        run_stmt(st, m, fuel) == trun_one(tree_of(st), m, fuel),
    decreases fuel, st, 0nat,
{
    if let Statement::Loop(body) = st {
        lemma_run_loop_model(body@, m, fuel);
    }
}

proof fn lemma_run_loop_model(body: Seq<Statement>, m: Machine, fuel: nat)
    ensures
        run_loop(body, m, fuel) == trun_loop(trees_of(body), m, fuel),
    decreases fuel, body, 2nat,
{
    if m.cell() != 0 {
        lemma_run_seq_model(body, m, fuel);
        let (m2, r) = run_seq(body, m, fuel);
        if let Ok(f2) = r {
            let f = min_nat(f2, fuel);
            if m2.cell() != 0 && f > 0 {
                lemma_run_loop_model(body, m2, (f - 1) as nat);
            }
        }
    }
}

} // verus!
