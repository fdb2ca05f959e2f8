//! The bytecode dispatcher and the tree interpreter agree: running the
//! bytecode of a jump-free tree gives the same machine, the same error or
//! the same remaining budget as running the tree.
use vstd::prelude::*;

use crate::bytecode::{code_len, flatten, flatten_stmt, jump_to, run_flat, stmt_len};
use crate::common::Instruction;
use crate::peephole::{is_jump, no_jumps, stmt_no_jumps, Statement};
use crate::semantics::{
    find_zero_left, find_zero_right, min_nat, run_loop, run_seq, run_stmt, step_instr, Outcome,
};
use crate::state::Machine;

verus! {

proof fn lemma_find_zero_fuel(m: Machine, k: int, fuel: nat)
    ensures
        find_zero_right(m, k, fuel).1 matches Ok(f) ==> f <= fuel,
        find_zero_left(m, k, fuel).1 matches Ok(f) ==> f <= fuel,
    decreases fuel,
{
    if m.cell() != 0 && fuel > 0 {
        if let Ok(m2) = m.right(k) {
            lemma_find_zero_fuel(m2, k, (fuel - 1) as nat);
        }
        if let Ok(m2) = m.left(k) {
            lemma_find_zero_fuel(m2, k, (fuel - 1) as nat);
        }
    }
}

pub proof fn lemma_step_fuel(m: Machine, i: Instruction, fuel: nat)
    ensures
        step_instr(m, i, fuel).1 matches Ok(f) ==> f <= fuel,
{
    match i {
        Instruction::FindZeroRight(k) => lemma_find_zero_fuel(m, k as int, fuel),
        Instruction::FindZeroLeft(k) => lemma_find_zero_fuel(m, k as int, fuel),
        _ => {},
    }
}

/// A run never gives back more budget than it was handed.
pub proof fn lemma_run_seq_fuel(s: Seq<Statement>, m: Machine, fuel: nat)
    ensures
        run_seq(s, m, fuel).1 matches Ok(f) ==> f <= fuel,
    decreases fuel, s, 1nat,
{
    if s.len() > 0 {
        let p = s.subrange(0, s.len() - 1);
        lemma_run_seq_fuel(p, m, fuel);
        let (m2, r) = run_seq(p, m, fuel);
        if let Ok(f2) = r {
            lemma_run_stmt_fuel(s[s.len() - 1], m2, min_nat(f2, fuel));
        }
    }
}

proof fn lemma_run_stmt_fuel(st: Statement, m: Machine, fuel: nat)
    ensures
        run_stmt(st, m, fuel).1 matches Ok(f) ==> f <= fuel,
    decreases fuel, st, 0nat,
{
    match st {
        Statement::Instr(i) => lemma_step_fuel(m, i, fuel),
        Statement::Loop(body) => lemma_run_loop_fuel(body@, m, fuel),
    }
}

proof fn lemma_run_loop_fuel(body: Seq<Statement>, m: Machine, fuel: nat)
    ensures
        run_loop(body, m, fuel).1 matches Ok(f) ==> f <= fuel,
    decreases fuel, body, 2nat,
{
    if m.cell() != 0 {
        lemma_run_seq_fuel(body, m, fuel);
        let (m2, r) = run_seq(body, m, fuel);
        if let Ok(f2) = r {
            let f = min_nat(f2, fuel);
            if m2.cell() != 0 && f > 0 {
                lemma_run_loop_fuel(body, m2, (f - 1) as nat);
            }
        }
    }
}

/// The bytecode `code` holds at address `base` onward.
pub open spec fn placed(p: Seq<Instruction>, code: Seq<Instruction>, base: int) -> bool {
    &&& 0 <= base
    &&& base + code.len() <= p.len()
    &&& base + code.len() <= usize::MAX
    &&& forall|j: int| 0 <= j < code.len() ==> p[base + j] == #[trigger] code[j]
}

/// Running the bytecode from `base` does what the outcome `o` of a tree
/// says, and then goes on from `end`.
pub open spec fn agrees(p: Seq<Instruction>, base: int, end: int, o: Outcome, m: Machine, fuel: nat) -> bool {
    match o.1 {
        Ok(f) => run_flat(p, base, m, fuel) == run_flat(p, end, o.0, f),
        Err(e) => run_flat(p, base, m, fuel) == (o.0, Err::<nat, crate::common::BfError>(e)),
    }
}

proof fn lemma_agree_seq(p: Seq<Instruction>, s: Seq<Statement>, base: int, m: Machine, fuel: nat)
    requires
        no_jumps(s),
        placed(p, flatten(s, base), base),
    ensures
        agrees(p, base, base + code_len(s), run_seq(s, m, fuel), m, fuel),
    decreases fuel, s, 1nat,
{
    crate::bytecode::lemma_flatten_len_pub(s, base);
    if s.len() > 0 {
        let q = s.subrange(0, s.len() - 1);
        let last = s[s.len() - 1];
        let at = base + code_len(q);
        crate::bytecode::lemma_flatten_len_pub(q, base);
        crate::bytecode::lemma_flatten_stmt_len_pub(last, at);
        let c = flatten(s, base);
        let c1 = flatten(q, base);
        let c2 = flatten_stmt(last, at);
        assert(c == c1 + c2);
        assert forall|j: int| 0 <= j < c1.len() implies p[base + j] == #[trigger] c1[j] by {
            assert(c[j] == c1[j]);
        }
        assert forall|j: int| 0 <= j < c2.len() implies p[at + j] == #[trigger] c2[j] by {
            assert(c[c1.len() + j] == c2[j]);
        }
        lemma_agree_seq(p, q, base, m, fuel);
        lemma_run_seq_fuel(q, m, fuel);
        let (m1, r) = run_seq(q, m, fuel);
        if let Ok(f1) = r {
            lemma_agree_stmt(p, last, at, m1, f1);
        }
    }
}

proof fn lemma_agree_stmt(p: Seq<Instruction>, st: Statement, base: int, m: Machine, fuel: nat)
    requires
        stmt_no_jumps(st),
        placed(p, flatten_stmt(st, base), base),
    ensures
        agrees(p, base, base + stmt_len(st), run_stmt(st, m, fuel), m, fuel),
    decreases fuel, st, 0nat,
{
    crate::bytecode::lemma_flatten_stmt_len_pub(st, base);
    match st {
        Statement::Instr(i) => {
            assert(flatten_stmt(st, base)[0] == i);
            assert(p[base] == i);
            assert(!is_jump(i));
            lemma_step_fuel(m, i, fuel);
            let (m2, r) = step_instr(m, i, fuel);
            assert(run_flat(p, base, m, fuel) == match r {
                Ok(f2) => run_flat(p, base + 1, m2, min_nat(f2, fuel)),
                Err(e) => (m2, Err(e)),
            });
            if let Ok(f2) = r {
                assert(min_nat(f2, fuel) == f2);
            }
        },
        Statement::Loop(body) => {
            let b = body@;
            let l = code_len(b) as int;
            let c = flatten_stmt(st, base);
            let inner = flatten(b, base + 1);
            crate::bytecode::lemma_flatten_len_pub(b, base + 1);
            assert(c[0] == Instruction::JumpZero((base + l + 2) as usize));
            assert(p[base] == c[0]);
            assert(c[l + 1] == Instruction::JumpNotZero((base + 1) as usize));
            assert(p[base + l + 1] == c[l + 1]);
            assert forall|j: int| 0 <= j < inner.len() implies p[base + 1 + j] == #[trigger] inner[j] by {
                assert(c[1 + j] == inner[j]);
                assert(p[base + (1 + j)] == c[1 + j]);
            }
            assert(run_flat(p, base, m, fuel) == if m.cell() == 0 {
                jump_to(p, base, base + l + 2, m, fuel)
            } else {
                run_flat(p, base + 1, m, fuel)
            });
            if m.cell() != 0 {
                lemma_agree_loop(p, b, base, m, fuel);
            } else {
                assert(run_loop(b, m, fuel) == (m, Ok::<nat, crate::common::BfError>(fuel)));
                if base + l + 2 >= p.len() {
                    assert(run_flat(p, base + l + 2, m, fuel) == (m, Ok::<nat, crate::common::BfError>(fuel)));
                }
            }
        },
    }
}

proof fn lemma_agree_loop(p: Seq<Instruction>, b: Seq<Statement>, base: int, m: Machine, fuel: nat)
    requires
        no_jumps(b),
        m.cell() != 0,
        placed(p, flatten(b, base + 1), base + 1),
        base + code_len(b) + 2 <= p.len(),
        base + code_len(b) + 2 <= usize::MAX,
        p[base + code_len(b) + 1] == Instruction::JumpNotZero((base + 1) as usize),
    ensures
        agrees(p, base + 1, base + code_len(b) + 2, run_loop(b, m, fuel), m, fuel),
    decreases fuel, b, 2nat,
{
    let l = code_len(b) as int;
    crate::bytecode::lemma_flatten_len_pub(b, base + 1);
    lemma_agree_seq(p, b, base + 1, m, fuel);
    lemma_run_seq_fuel(b, m, fuel);
    let (m2, r) = run_seq(b, m, fuel);
    if let Ok(f2) = r {
        if m2.cell() != 0 && f2 > 0 {
            lemma_agree_loop(p, b, base, m2, (f2 - 1) as nat);
        }
        assert(run_flat(p, base + l + 1, m2, f2) == if m2.cell() != 0 {
            jump_to(p, base + l + 1, base + 1, m2, f2)
        } else {
            run_flat(p, base + l + 2, m2, f2)
        });
    }
}

/// The bytecode dispatcher, run on the bytecode of a jump-free tree, ends
/// exactly as the tree interpreter does on the tree: same machine (so the
/// same output), same error, same remaining budget.
pub proof fn lemma_bytecode_agrees(s: Seq<Statement>, m: Machine, fuel: nat)
    requires
        no_jumps(s),
        code_len(s) <= usize::MAX,
    ensures
        run_flat(flatten(s, 0), 0, m, fuel) == run_seq(s, m, fuel),
{
    let c = flatten(s, 0);
    crate::bytecode::lemma_flatten_len_pub(s, 0);
    assert forall|j: int| 0 <= j < c.len() implies c[0 + j] == #[trigger] c[j] by {}
    lemma_agree_seq(c, s, 0, m, fuel);
}

} // verus!
