//! Soundness of the bounds analysis: on every run of a program, each tape
//! access that the analysis proves in bounds is in bounds.
use vstd::prelude::*;

use crate::analysis::{
    after, loop_entry, moves_left, moves_right, proves, stmt_moves_left, stmt_moves_right, Slack,
};
use crate::common::Instruction;
use crate::peephole::Statement;
use crate::semantics::{
    find_zero_left, find_zero_right, min_nat, run_loop, run_seq, run_stmt, step_instr,
};
use crate::state::Machine;

verus! {

/// The machine `m2` has the shape of `m`, and its head moved only in the
/// directions that `left` and `right` allow.
pub open spec fn moved_within(m: Machine, m2: Machine, left: bool, right: bool) -> bool {
    &&& m2.wf()
    &&& m2.mem.len() == m.mem.len()
    &&& !left ==> m2.ptr >= m.ptr
    &&& !right ==> m2.ptr <= m.ptr
}

proof fn lemma_find_zero_right(m: Machine, k: int, fuel: nat)
    requires
        m.wf(),
        k >= 0,
    ensures
        moved_within(m, find_zero_right(m, k, fuel).0, false, true),
    decreases fuel,
{
    if m.cell() != 0 && fuel > 0 {
        if let Ok(m2) = m.right(k) {
            lemma_find_zero_right(m2, k, (fuel - 1) as nat);
        }
    }
}

proof fn lemma_find_zero_left(m: Machine, k: int, fuel: nat)
    requires
        m.wf(),
        k >= 0,
    ensures
        moved_within(m, find_zero_left(m, k, fuel).0, true, false),
    decreases fuel,
{
    if m.cell() != 0 && fuel > 0 {
        if let Ok(m2) = m.left(k) {
            lemma_find_zero_left(m2, k, (fuel - 1) as nat);
        }
    }
}

pub proof fn lemma_step_frame(m: Machine, i: Instruction, fuel: nat)
    requires
        m.wf(),
    ensures
        moved_within(
            m,
            step_instr(m, i, fuel).0,
            i is Left || i is FindZeroLeft,
            i is Right || i is FindZeroRight,
        ),
{
    match i {
        Instruction::FindZeroRight(k) => lemma_find_zero_right(m, k as int, fuel),
        Instruction::FindZeroLeft(k) => lemma_find_zero_left(m, k as int, fuel),
        _ => {},
    }
}

/// A run keeps the tape's length, and the head moves only toward the sides
/// toward which the program may move.
pub proof fn lemma_run_seq_frame(s: Seq<Statement>, m: Machine, fuel: nat)
    requires
        m.wf(),
    ensures
        moved_within(m, run_seq(s, m, fuel).0, moves_left(s), moves_right(s)),
    decreases fuel, s, 1nat,
{
    if s.len() > 0 {
        let p = s.subrange(0, s.len() - 1);
        lemma_run_seq_frame(p, m, fuel);
        let (m2, r) = run_seq(p, m, fuel);
        if let Ok(f2) = r {
            lemma_run_stmt_frame(s[s.len() - 1], m2, min_nat(f2, fuel));
        }
    }
}

proof fn lemma_run_stmt_frame(st: Statement, m: Machine, fuel: nat)
    requires
        m.wf(),
    ensures
        moved_within(m, run_stmt(st, m, fuel).0, stmt_moves_left(st), stmt_moves_right(st)),
    decreases fuel, st, 0nat,
{
    match st {
        Statement::Instr(i) => lemma_step_frame(m, i, fuel),
        Statement::Loop(body) => lemma_run_loop_frame(body@, m, fuel),
    }
}

proof fn lemma_run_loop_frame(body: Seq<Statement>, m: Machine, fuel: nat)
    requires
        m.wf(),
    ensures
        moved_within(m, run_loop(body, m, fuel).0, moves_left(body), moves_right(body)),
    decreases fuel, body, 2nat,
{
    if m.cell() != 0 {
        lemma_run_seq_frame(body, m, fuel);
        let (m2, r) = run_seq(body, m, fuel);
        if let Ok(f2) = r {
            let f = min_nat(f2, fuel);
            if m2.cell() != 0 && f > 0 {
                lemma_run_loop_frame(body, m2, (f - 1) as nat);
            }
        }
    }
}

/// The knowledge of the analysis after a sequence of statements, starting
/// from `k`. After a loop it is the knowledge saved at the loop's entry.
pub open spec fn knowledge_after(s: Seq<Statement>, k: Slack) -> Slack
    decreases s.len(),
{
    if s.len() == 0 {
        k
    } else {
        let k1 = knowledge_after(s.subrange(0, s.len() - 1), k);
        match s[s.len() - 1] {
            Statement::Instr(i) => after(k1, i),
            Statement::Loop(body) => loop_entry(k1, body@),
        }
    }
}

/// The tape access that instruction `i` makes on `m` is in bounds.
pub open spec fn in_bounds(i: Instruction, m: Machine) -> bool {
    match i {
        Instruction::Right(n) => m.ptr + n < m.mem.len(),
        Instruction::Left(n) => n <= m.ptr,
        Instruction::OffsetAddRight(k) => m.cell() == 0 || m.ptr + k < m.mem.len(),
        Instruction::OffsetAddLeft(k) => m.cell() == 0 || k <= m.ptr,
        _ => true,
    }
}

/// Along the run of `s` from `m`, with the analysis starting from `k`, every
/// access that the analysis proves in bounds is in bounds.
pub open spec fn safe_seq(s: Seq<Statement>, k: Slack, m: Machine, fuel: nat) -> bool
    decreases fuel, s, 1nat,
{
    if s.len() == 0 {
        true
    } else {
        let p = s.subrange(0, s.len() - 1);
        let (m2, r) = run_seq(p, m, fuel);
        &&& safe_seq(p, k, m, fuel)
        &&& match r {
            Ok(f2) => safe_stmt(s[s.len() - 1], knowledge_after(p, k), m2, min_nat(f2, fuel)),
            Err(_) => true,
        }
    }
}

pub open spec fn safe_stmt(st: Statement, k: Slack, m: Machine, fuel: nat) -> bool
    decreases fuel, st, 0nat,
{
    match st {
        Statement::Instr(i) => proves(k, i) ==> in_bounds(i, m),
        Statement::Loop(body) => safe_loop(body@, loop_entry(k, body@), m, fuel),
    }
}

/// Every iteration of the loop is safe, each analysed from the loop's entry knowledge `e`.
pub open spec fn safe_loop(body: Seq<Statement>, e: Slack, m: Machine, fuel: nat) -> bool
    decreases fuel, body, 2nat,
{
    if m.cell() == 0 {
        true
    } else {
        let (m2, r) = run_seq(body, m, fuel);
        &&& safe_seq(body, e, m, fuel)
        &&& match r {
            Ok(f2) => {
                let f = min_nat(f2, fuel);
                m2.cell() != 0 && f > 0 ==> safe_loop(body, e, m2, (f - 1) as nat)
            },
            Err(_) => true,
        }
    }
}

proof fn lemma_after_holds(k: Slack, m: Machine, i: Instruction, fuel: nat)
    requires
        m.wf(),
        k.holds(m.ptr, m.mem.len() as int),
        step_instr(m, i, fuel).1 is Ok,
    ensures
        after(k, i).holds(step_instr(m, i, fuel).0.ptr, m.mem.len() as int),
{
    lemma_step_frame(m, i, fuel);
}

/// Analysis soundness for a sequence, from any knowledge that holds at the start.
pub proof fn lemma_sound_seq(s: Seq<Statement>, k: Slack, m: Machine, fuel: nat)
    requires
        m.wf(),
        k.holds(m.ptr, m.mem.len() as int),
    ensures
        safe_seq(s, k, m, fuel),
        run_seq(s, m, fuel).1 is Ok ==> knowledge_after(s, k).holds(
            run_seq(s, m, fuel).0.ptr,
            m.mem.len() as int,
        ),
    decreases fuel, s, 1nat,
{
    if s.len() > 0 {
        let p = s.subrange(0, s.len() - 1);
        lemma_sound_seq(p, k, m, fuel);
        lemma_run_seq_frame(p, m, fuel);
        let (m2, r) = run_seq(p, m, fuel);
        if let Ok(f2) = r {
            lemma_sound_stmt(s[s.len() - 1], knowledge_after(p, k), m2, min_nat(f2, fuel));
        }
    }
}

proof fn lemma_sound_stmt(st: Statement, k: Slack, m: Machine, fuel: nat)
    requires
        m.wf(),
        k.holds(m.ptr, m.mem.len() as int),
    ensures
        safe_stmt(st, k, m, fuel),
        run_stmt(st, m, fuel).1 is Ok ==> match st {
            Statement::Instr(i) => after(k, i),
            Statement::Loop(body) => loop_entry(k, body@),
        }.holds(run_stmt(st, m, fuel).0.ptr, m.mem.len() as int),
    decreases fuel, st, 0nat,
{
    match st {
        Statement::Instr(i) => {
            if step_instr(m, i, fuel).1 is Ok {
                lemma_after_holds(k, m, i, fuel);
            }
        },
        Statement::Loop(body) => {
            lemma_sound_loop(body@, loop_entry(k, body@), m, fuel);
        },
    }
}

proof fn lemma_sound_loop(body: Seq<Statement>, e: Slack, m: Machine, fuel: nat)
    requires
        m.wf(),
        e.holds(m.ptr, m.mem.len() as int),
        moves_left(body) ==> e.left == 0,
        moves_right(body) ==> e.right == 0,
    ensures
        safe_loop(body, e, m, fuel),
        run_loop(body, m, fuel).1 is Ok ==> e.holds(run_loop(body, m, fuel).0.ptr, m.mem.len() as int),
    decreases fuel, body, 2nat,
{
    if m.cell() != 0 {
        lemma_sound_seq(body, e, m, fuel);
        lemma_run_seq_frame(body, m, fuel);
        let (m2, r) = run_seq(body, m, fuel);
        if let Ok(f2) = r {
            let f = min_nat(f2, fuel);
            if m2.cell() != 0 && f > 0 {
                lemma_sound_loop(body, e, m2, (f - 1) as nat);
            }
        }
    }
}

/// The bounds analysis is sound: on every run of a program from a fresh
/// start, each head movement and offset access that the analysis proves in
/// bounds is in bounds where the run reaches it.
pub proof fn lemma_analysis_sound(s: Seq<Statement>, m: Machine, fuel: nat)
    requires
        m.wf(),
    ensures
        safe_seq(s, Slack::unknown(), m, fuel),
{
    lemma_sound_seq(s, Slack::unknown(), m, fuel);
}

} // verus!
