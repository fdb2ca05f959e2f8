//! Run-length encoding keeps what a program does: the encoded program writes
//! the same bytes, stops on the same error, or ends in the same machine with
//! the same budget left.
use vstd::prelude::*;

use crate::agreement::lemma_step_fuel;
use crate::common::Instruction;
use crate::peephole::{trees_of, Statement, Tree};
use crate::rle::{encode, encode_one, is_null, merge, push_encoded};
use crate::semantics::{min_nat, run_seq, step_instr, trun_loop, trun_one, trun_seq, Outcome};
use crate::soundness::lemma_step_frame;
use crate::state::Machine;

verus! {

/// Two outcomes that nobody can tell apart from outside: both end normally,
/// in the same machine with the same budget left, or both stop on the same
/// error after writing the same bytes.
pub open spec fn same_observation(a: Outcome, b: Outcome) -> bool {
    &&& (a.1 is Ok <==> b.1 is Ok)
    &&& a.1 is Ok ==> a == b
    &&& a.1 is Err ==> a.1 == b.1 && a.0.output == b.0.output
}

proof fn lemma_trun_seq_frame(s: Seq<Tree>, m: Machine, fuel: nat)
    requires
        m.wf(),
    ensures
        trun_seq(s, m, fuel).0.wf(),
        trun_seq(s, m, fuel).1 matches Ok(f) ==> f <= fuel,
    decreases fuel, s, 1nat,
{
    if s.len() > 0 {
        let p = s.subrange(0, s.len() - 1);
        lemma_trun_seq_frame(p, m, fuel);
        let (m2, r) = trun_seq(p, m, fuel);
        if let Ok(f2) = r {
            lemma_trun_one_frame(s[s.len() - 1], m2, min_nat(f2, fuel));
        }
    }
}

proof fn lemma_trun_one_frame(t: Tree, m: Machine, fuel: nat)
    requires
        m.wf(),
    ensures
        trun_one(t, m, fuel).0.wf(),
        trun_one(t, m, fuel).1 matches Ok(f) ==> f <= fuel,
    decreases fuel, t, 0nat,
{
    match t {
        Tree::Op(i) => {
            lemma_step_frame(m, i, fuel);
            lemma_step_fuel(m, i, fuel);
        },
        Tree::Block(body) => lemma_trun_loop_frame(body, m, fuel),
    }
}

proof fn lemma_trun_loop_frame(body: Seq<Tree>, m: Machine, fuel: nat)
    requires
        m.wf(),
    ensures
        trun_loop(body, m, fuel).0.wf(),
        trun_loop(body, m, fuel).1 matches Ok(f) ==> f <= fuel,
    decreases fuel, body, 2nat,
{
    if m.cell() != 0 {
        lemma_trun_seq_frame(body, m, fuel);
        let (m2, r) = trun_seq(body, m, fuel);
        if let Ok(f2) = r {
            let f = min_nat(f2, fuel);
            if m2.cell() != 0 && f > 0 {
                lemma_trun_loop_frame(body, m2, (f - 1) as nat);
            }
        }
    }
}

proof fn lemma_push_unfold(x: Seq<Tree>, t: Tree, m: Machine, fuel: nat)
    ensures
        trun_seq(x.push(t), m, fuel) == match trun_seq(x, m, fuel).1 {
            Ok(f2) => trun_one(t, trun_seq(x, m, fuel).0, min_nat(f2, fuel)),
            Err(e) => (trun_seq(x, m, fuel).0, Err(e)),
        },
{
    assert(x.push(t).subrange(0, x.len() as int) =~= x);
}

/// Appending the same tree keeps two runs alike; so does appending two
/// trees that run alike from every machine.
proof fn lemma_push_congruence(x: Seq<Tree>, y: Seq<Tree>, t: Tree, u: Tree, m: Machine, fuel: nat)
    requires
        m.wf(),
        same_observation(trun_seq(x, m, fuel), trun_seq(y, m, fuel)),
        forall|m1: Machine, g: nat|
            m1.wf() && g <= fuel ==> same_observation(
                #[trigger] trun_one(t, m1, g),
                trun_one(u, m1, g),
            ),
    ensures
        same_observation(trun_seq(x.push(t), m, fuel), trun_seq(y.push(u), m, fuel)),
{
    lemma_push_unfold(x, t, m, fuel);
    lemma_push_unfold(y, u, m, fuel);
    lemma_trun_seq_frame(x, m, fuel);
}

proof fn lemma_add_twice(v: u8, a: u8, b: u8)
    ensures
        (((v + a) % 256) as u8 + b) % 256 == (v + ((a + b) % 256) as u8) % 256,
{
    assert((((v + a) % 256) as u8 + b) % 256 == (v + ((a + b) % 256) as u8) % 256) by (nonlinear_arith);
}

/// Running a merged instruction is like running the two it came from.
proof fn lemma_merge_obs(y: Seq<Tree>, a: Instruction, b: Instruction, m: Machine, fuel: nat)
    requires
        m.wf(),
        merge(a, b) is Some,
    ensures
        same_observation(
            trun_seq(y.push(Tree::Op(merge(a, b)->Some_0)), m, fuel),
            trun_seq(y.push(Tree::Op(a)).push(Tree::Op(b)), m, fuel),
        ),
        is_null(merge(a, b)->Some_0) ==> same_observation(
            trun_seq(y, m, fuel),
            trun_seq(y.push(Tree::Op(a)).push(Tree::Op(b)), m, fuel),
        ),
{
    let c = merge(a, b)->Some_0;
    lemma_trun_seq_frame(y, m, fuel);
    lemma_push_unfold(y, Tree::Op(c), m, fuel);
    lemma_push_unfold(y, Tree::Op(a), m, fuel);
    lemma_push_unfold(y.push(Tree::Op(a)), Tree::Op(b), m, fuel);
    let (m1, r) = trun_seq(y, m, fuel);
    if let Ok(f1) = r {
        let g = min_nat(f1, fuel);
        assert(g == f1);
        match (a, b) {
            (Instruction::Add(p), Instruction::Add(q)) => {
                lemma_add_twice(m1.cell(), p, q);
                let m2 = m1.add(p);
                assert(m2.cell() == ((m1.cell() + p) % 256) as u8);
                assert(m2.add(q).mem =~= m1.add(c->Add_0).mem);
                if is_null(c) {
                    assert(m1.add(0).mem =~= m1.mem);
                    assert((m1.cell() + 0) % 256 == m1.cell());
                }
            },
            (Instruction::Left(p), Instruction::Left(q)) => {
                if is_null(c) {
                    assert(m1.with_ptr(m1.ptr - 0) == m1);
                }
            },
            (Instruction::Right(p), Instruction::Right(q)) => {
                if is_null(c) {
                    assert(m1.with_ptr(m1.ptr + 0) == m1);
                }
            },
            _ => {},
        }
    }
}

/// A null instruction does nothing.
proof fn lemma_null_obs(y: Seq<Tree>, i: Instruction, m: Machine, fuel: nat)
    requires
        m.wf(),
        is_null(i),
    ensures
        same_observation(trun_seq(y, m, fuel), trun_seq(y.push(Tree::Op(i)), m, fuel)),
{
    lemma_trun_seq_frame(y, m, fuel);
    lemma_push_unfold(y, Tree::Op(i), m, fuel);
    let (m1, r) = trun_seq(y, m, fuel);
    if let Ok(f1) = r {
        assert(m1.with_ptr(m1.ptr - 0) == m1);
        assert(m1.with_ptr(m1.ptr + 0) == m1);
        assert(m1.add(0).mem =~= m1.mem);
        assert((m1.cell() + 0) % 256 == m1.cell());
    }
}

/// Appending through `push_encoded` is like appending.
proof fn lemma_push_encoded_obs(x: Seq<Tree>, t: Tree, m: Machine, fuel: nat)
    requires
        m.wf(),
    ensures
        same_observation(trun_seq(push_encoded(x, t), m, fuel), trun_seq(x.push(t), m, fuel)),
{
    lemma_trun_seq_frame(x.push(t), m, fuel);
    if let Tree::Op(i) = t {
        if is_null(i) {
            lemma_null_obs(x, i, m, fuel);
        } else if x.len() > 0 && x.last() is Op && merge(x.last()->Op_0, i) is Some {
            let y = x.drop_last();
            let a = x.last()->Op_0;
            assert(y.push(Tree::Op(a)) =~= x);
            lemma_merge_obs(y, a, i, m, fuel);
        }
    }
}

/// The encoding of a sequence runs as the sequence does.
pub proof fn lemma_encode_obs(s: Seq<Tree>, m: Machine, fuel: nat)
    requires
        m.wf(),
    ensures
        same_observation(trun_seq(encode(s), m, fuel), trun_seq(s, m, fuel)),
    decreases fuel, s, 1nat,
{
    if s.len() > 0 {
        let p = s.subrange(0, s.len() - 1);
        let last = s[s.len() - 1];
        let e = encode(p);
        let eo = encode_one(last);
        lemma_encode_obs(p, m, fuel);
        lemma_push_encoded_obs(e, eo, m, fuel);
        assert forall|m1: Machine, g: nat|
            m1.wf() && g <= fuel implies same_observation(
                #[trigger] trun_one(eo, m1, g),
                trun_one(last, m1, g),
            ) by {
            lemma_encode_one_obs(last, m1, g);
        }
        lemma_push_congruence(e, p, eo, last, m, fuel);
        assert(p.push(last) =~= s);
    }
}

proof fn lemma_encode_one_obs(t: Tree, m: Machine, fuel: nat)
    requires
        m.wf(),
    ensures
        same_observation(trun_one(encode_one(t), m, fuel), trun_one(t, m, fuel)),
    decreases fuel, t, 0nat,
{
    if let Tree::Block(body) = t {
        lemma_encode_loop_obs(body, m, fuel);
    }
}

proof fn lemma_encode_loop_obs(body: Seq<Tree>, m: Machine, fuel: nat)
    requires
        m.wf(),
    ensures
        same_observation(trun_loop(encode(body), m, fuel), trun_loop(body, m, fuel)),
    decreases fuel, body, 2nat,
{
    if m.cell() != 0 {
        lemma_encode_obs(body, m, fuel);
        lemma_trun_seq_frame(body, m, fuel);
        let (m2, r) = trun_seq(body, m, fuel);
        if let Ok(f2) = r {
            let f = min_nat(f2, fuel);
            if m2.cell() != 0 && f > 0 {
                lemma_encode_loop_obs(body, m2, (f - 1) as nat);
            }
        }
    }
}

/// Run-length encoding keeps behaviour: a program whose model is the
/// encoding of another's runs, from any machine, as the other does.
pub proof fn lemma_rle_preserves(encoded: Seq<Statement>, plain: Seq<Statement>, m: Machine, fuel: nat)
    requires
        m.wf(),
        trees_of(encoded) == encode(trees_of(plain)),
    ensures
        same_observation(run_seq(encoded, m, fuel), run_seq(plain, m, fuel)),
{
    crate::semantics::lemma_run_seq_model(encoded, m, fuel);
    crate::semantics::lemma_run_seq_model(plain, m, fuel);
    lemma_encode_obs(trees_of(plain), m, fuel);
}

} // verus!
