//! The peephole IR: trees of composite instructions, and the pass that
//! replaces known loop idioms by synthetic instructions.
use vstd::prelude::*;

use crate::common::Instruction;

verus! {

/// A statement of the run-length-encoded and peephole IRs.
#[derive(Debug, PartialEq, Eq)]
pub enum Statement {
    /// A non-loop instruction; never a jump.
    Instr(Instruction),
    /// A loop around a sequence of statements.
    Loop(Vec<Statement>),
}

/// The mathematical model of a statement.
pub enum Tree {
    Op(Instruction),
    Block(Seq<Tree>),
}

pub open spec fn tree_of(st: Statement) -> Tree
    decreases st, 0nat,
{
    match st {
        Statement::Instr(i) => Tree::Op(i),
        Statement::Loop(body) => Tree::Block(trees_of(body@)),
    }
}

/// The model of a sequence of statements.
pub open spec fn trees_of(s: Seq<Statement>) -> Seq<Tree>
    decreases s, 1nat,
{
    if s.len() == 0 {
        seq![]
    } else {
        trees_of(s.subrange(0, s.len() - 1)).push(tree_of(s[s.len() - 1]))
    }
}

pub proof fn lemma_trees_of_push(s: Seq<Statement>, st: Statement)
    ensures
        trees_of(s.push(st)) == trees_of(s).push(tree_of(st)),
        no_jumps(s.push(st)) == (no_jumps(s) && stmt_no_jumps(st)),
{
    assert(s.push(st).subrange(0, s.len() as int) =~= s);
}

pub proof fn lemma_trees_of_len(s: Seq<Statement>)
    ensures
        trees_of(s).len() == s.len(),
    decreases s.len(),
{
    if s.len() > 0 {
        lemma_trees_of_len(s.subrange(0, s.len() - 1));
    }
}

pub proof fn lemma_trees_of_drop_last(s: Seq<Statement>)
    requires
        s.len() > 0,
    ensures
        trees_of(s.drop_last()) == trees_of(s).drop_last(),
        trees_of(s).last() == tree_of(s.last()),
        no_jumps(s) ==> no_jumps(s.drop_last()) && stmt_no_jumps(s.last()),
{
    assert(s.drop_last() =~= s.subrange(0, s.len() - 1));
    assert(trees_of(s).drop_last() =~= trees_of(s.subrange(0, s.len() - 1)));
}

pub proof fn lemma_trees_of_index(s: Seq<Statement>, k: int)
    requires
        0 <= k < s.len(),
    ensures
        trees_of(s).len() == s.len(),
        trees_of(s)[k] == tree_of(s[k]),
    decreases s.len(),
{
    lemma_trees_of_len(s);
    if k < s.len() - 1 {
        let p = s.subrange(0, s.len() - 1);
        lemma_trees_of_index(p, k);
        assert(p[k] == s[k]);
    }
}

/// Each statement of a jump-free sequence is jump-free.
pub proof fn lemma_no_jumps_element(s: Seq<Statement>, k: int)
    requires
        no_jumps(s),
        0 <= k < s.len(),
    ensures
        stmt_no_jumps(s[k]),
    decreases s.len(),
{
    if k < s.len() - 1 {
        let p = s.subrange(0, s.len() - 1);
        lemma_no_jumps_element(p, k);
        assert(p[k] == s[k]);
    }
}

/// The synthetic instruction that a loop with body `b` stands for, if `b`
/// is one of the known idioms.
pub open spec fn idiom(b: Seq<Tree>) -> Option<Instruction> {
    if b.len() == 1 && b[0] is Op {
        match b[0]->Op_0 {
            Instruction::Add(d) => if d % 2 == 1 {
                Some(Instruction::SetZero)
            } else {
                None
            },
            Instruction::Right(k) => Some(Instruction::FindZeroRight(k)),
            Instruction::Left(k) => Some(Instruction::FindZeroLeft(k)),
            _ => None,
        }
    } else if b.len() == 4 && b[0] == Tree::Op(Instruction::Add(255)) && b[2] == Tree::Op(
        Instruction::Add(1),
    ) && b[1] is Op && b[3] is Op {
        match (b[1]->Op_0, b[3]->Op_0) {
            (Instruction::Right(k), Instruction::Left(j)) => if k == j {
                Some(Instruction::OffsetAddRight(k))
            } else {
                None
            },
            (Instruction::Left(k), Instruction::Right(j)) => if k == j {
                Some(Instruction::OffsetAddLeft(k))
            } else {
                None
            },
            _ => None,
        }
    } else {
        None
    }
}

/// The peephole optimization of a sequence of trees: each loop whose body is
/// an idiom becomes the idiom's instruction; other loops keep their place,
/// with their bodies optimized.
pub open spec fn optimize(s: Seq<Tree>) -> Seq<Tree>
    decreases s, 1nat,
{
    if s.len() == 0 {
        seq![]
    } else {
        optimize(s.subrange(0, s.len() - 1)).push(optimize_one(s[s.len() - 1]))
    }
}

pub open spec fn optimize_one(t: Tree) -> Tree
    decreases t, 0nat,
{
    match t {
        Tree::Op(i) => Tree::Op(i),
        Tree::Block(b) => match idiom(b) {
            Some(i) => Tree::Op(i),
            None => Tree::Block(optimize(b)),
        },
    }
}

proof fn lemma_optimize_index(s: Seq<Tree>, k: int)
    requires
        0 <= k < s.len(),
    ensures
        optimize(s).len() == s.len(),
        optimize(s)[k] == optimize_one(s[k]),
    decreases s.len(),
{
    lemma_optimize_len(s);
    if k < s.len() - 1 {
        let p = s.subrange(0, s.len() - 1);
        lemma_optimize_index(p, k);
        assert(p[k] == s[k]);
    }
}

proof fn lemma_optimize_len(s: Seq<Tree>)
    ensures
        optimize(s).len() == s.len(),
    decreases s.len(),
{
    if s.len() > 0 {
        lemma_optimize_len(s.subrange(0, s.len() - 1));
    }
}

/// A move or an add comes out of the optimization only where it went in.
proof fn lemma_optimize_one_plain(t: Tree)
    requires
        optimize_one(t) is Op,
        optimize_one(t)->Op_0 is Add || optimize_one(t)->Op_0 is Left || optimize_one(t)->Op_0 is Right,
    ensures
        t == optimize_one(t),
{
}

proof fn lemma_idiom_of_optimized(b: Seq<Tree>)
    requires
        idiom(b) is None,
    ensures
        idiom(optimize(b)) is None,
{
    let o = optimize(b);
    lemma_optimize_len(b);
    if idiom(o) is Some {
        if b.len() == 1 {
            lemma_optimize_index(b, 0);
            lemma_optimize_one_plain(b[0]);
        } else {
            assert(b.len() == 4);
            lemma_optimize_index(b, 0);
            lemma_optimize_index(b, 1);
            lemma_optimize_index(b, 2);
            lemma_optimize_index(b, 3);
            lemma_optimize_one_plain(b[0]);
            lemma_optimize_one_plain(b[1]);
            lemma_optimize_one_plain(b[2]);
            lemma_optimize_one_plain(b[3]);
        }
    }
}

/// Peephole optimization is idempotent.
pub proof fn lemma_optimize_idempotent(s: Seq<Tree>)
    ensures
        optimize(optimize(s)) == optimize(s),
    decreases s, 1nat,
{
    let o = optimize(s);
    lemma_optimize_len(s);
    lemma_optimize_len(o);
    assert forall|k: int| 0 <= k < o.len() implies optimize(o)[k] == o[k] by {
        lemma_optimize_index(s, k);
        lemma_optimize_index(o, k);
        lemma_optimize_one_idempotent(s[k]);
    }
    assert(optimize(o) =~= o);
}

proof fn lemma_optimize_one_idempotent(t: Tree)
    ensures
        optimize_one(optimize_one(t)) == optimize_one(t),
    decreases t, 0nat,
{
    if let Tree::Block(b) = t {
        if idiom(b) is None {
            lemma_idiom_of_optimized(b);
            lemma_optimize_idempotent(b);
        }
    }
}

/// A program of the peephole IR.
pub type Program = Vec<Statement>;

pub open spec fn is_jump(i: Instruction) -> bool {
    i is JumpZero || i is JumpNotZero
}

/// No statement of the tree is a jump: the tree IRs express control flow by nesting.
pub open spec fn no_jumps(s: Seq<Statement>) -> bool
    decreases s, 1nat,
{
    if s.len() == 0 {
        true
    } else {
        no_jumps(s.subrange(0, s.len() - 1)) && stmt_no_jumps(s[s.len() - 1])
    }
}

pub open spec fn stmt_no_jumps(st: Statement) -> bool
    decreases st, 0nat,
{
    match st {
        Statement::Instr(i) => !is_jump(i),
        Statement::Loop(body) => no_jumps(body@),
    }
}

/// The instruction at `k` of `body`, unless a loop stands there.
fn op_at(body: &Vec<Statement>, k: usize) -> (r: Option<Instruction>)
    requires
        k < body@.len(),
    ensures
        trees_of(body@).len() == body@.len(),
        match trees_of(body@)[k as int] {
            Tree::Op(i) => r == Some(i),
            Tree::Block(_) => r is None,
        },
{
    proof {
        lemma_trees_of_index(body@, k as int);
    }
    match &body[k] {
        Statement::Instr(i) => Some(*i),
        Statement::Loop(_) => None,
    }
}

/// Recognizes a loop body that is one of the known idioms.
fn idiom_of(body: &Vec<Statement>) -> (r: Option<Instruction>)
    ensures
        r == idiom(trees_of(body@)),
{
    proof {
        lemma_trees_of_len(body@);
    }
    let n = body.len();
    if n == 1 {
        match op_at(body, 0) {
            Some(Instruction::Add(d)) => if d % 2 == 1 {
                Some(Instruction::SetZero)
            } else {
                None
            },
            Some(Instruction::Right(k)) => Some(Instruction::FindZeroRight(k)),
            Some(Instruction::Left(k)) => Some(Instruction::FindZeroLeft(k)),
            _ => None,
        }
    } else if n == 4 {
        let a = op_at(body, 0);
        let m1 = op_at(body, 1);
        let c = op_at(body, 2);
        let m2 = op_at(body, 3);
        match (a, m1, c, m2) {
            (
                Some(Instruction::Add(255)),
                Some(Instruction::Right(k)),
                Some(Instruction::Add(1)),
                Some(Instruction::Left(j)),
            ) => if k == j {
                Some(Instruction::OffsetAddRight(k))
            } else {
                None
            },
            (
                Some(Instruction::Add(255)),
                Some(Instruction::Left(k)),
                Some(Instruction::Add(1)),
                Some(Instruction::Right(j)),
            ) => if k == j {
                Some(Instruction::OffsetAddLeft(k))
            } else {
                None
            },
            _ => None,
        }
    } else {
        None
    }
}

/// Applies the peephole optimization to a run-length-encoded program.
pub fn compile(src: &Vec<Statement>) -> (r: Vec<Statement>)
    ensures
        trees_of(r@) == optimize(trees_of(src@)),
        no_jumps(src@) ==> no_jumps(r@),
    decreases src@,
{
    let mut out: Vec<Statement> = Vec::new();
    let mut i: usize = 0;
    proof {
        assert(src@.subrange(0, 0) =~= Seq::<Statement>::empty());
    }
    while i < src.len()
        invariant
            0 <= i <= src@.len(),
            trees_of(out@) == optimize(trees_of(src@.subrange(0, i as int))),
            no_jumps(src@) ==> no_jumps(out@),
        decreases src@.len() - i,
    {
        let ghost p = src@.subrange(0, i as int);
        let ghost q = src@.subrange(0, i + 1);
        proof {
            assert(q.subrange(0, i as int) =~= p);
            assert(q[i as int] == src@[i as int]);
            assert(trees_of(q) == trees_of(p).push(tree_of(src@[i as int])));
            assert(trees_of(q).subrange(0, trees_of(q).len() - 1) =~= trees_of(p));
            if no_jumps(src@) {
                lemma_no_jumps_element(src@, i as int);
            }
        }
        let st = match &src[i] {
            Statement::Instr(instruction) => Statement::Instr(*instruction),
            Statement::Loop(body) => {
                assert(decreases_to!(src@ => src@[i as int]));
                match idiom_of(body) {
                    Some(instruction) => Statement::Instr(instruction),
                    None => Statement::Loop(compile(body)),
                }
            },
        };
        assert(tree_of(st) == optimize_one(tree_of(src@[i as int])));
        proof {
            lemma_trees_of_push(out@, st);
        }
        out.push(st);
        i = i + 1;
    }
    assert(src@.subrange(0, i as int) =~= src@);
    out
}

} // verus!
