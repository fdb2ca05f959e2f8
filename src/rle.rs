//! The run-length-encoding pass: adjacent repetitions of a command become one
//! instruction that carries the count.
use vstd::prelude::*;

use crate::ast;
use crate::common::{Command, Instruction};
use crate::peephole::{
    lemma_trees_of_drop_last, lemma_trees_of_len, lemma_trees_of_push, no_jumps, stmt_no_jumps,
    tree_of, trees_of, Statement, Tree,
};

verus! {

/// The instruction that a single source command stands for.
pub open spec fn unit(c: Command) -> Instruction {
    match c {
        Command::Left => Instruction::Left(1),
        Command::Right => Instruction::Right(1),
        Command::Add(d) => Instruction::Add(d),
        Command::In => Instruction::In,
        Command::Out => Instruction::Out,
        Command::Begin => Instruction::JumpZero(0),
        Command::End => Instruction::JumpNotZero(0),
    }
}

/// The syntax tree read as a tree of instructions, one per command.
pub open spec fn lift(s: Seq<ast::Instruction>) -> Seq<Tree>
    decreases s, 1nat,
{
    if s.len() == 0 {
        seq![]
    } else {
        lift(s.subrange(0, s.len() - 1)).push(lift_one(s[s.len() - 1]))
    }
}

pub open spec fn lift_one(i: ast::Instruction) -> Tree
    decreases i, 0nat,
{
    match i {
        ast::Instruction::Cmd(c) => Tree::Op(unit(c)),
        ast::Instruction::Loop(body) => Tree::Block(lift(body@)),
    }
}

/// An instruction that does nothing: a move by zero or an add of zero.
pub open spec fn is_null(i: Instruction) -> bool {
    i == Instruction::Left(0) || i == Instruction::Right(0) || i == Instruction::Add(0)
}

/// The one instruction with the effect of `a` then `b`, where the two are of
/// a kind that carries a count and the sum fits.
pub open spec fn merge(a: Instruction, b: Instruction) -> Option<Instruction> {
    match (a, b) {
        (Instruction::Left(x), Instruction::Left(y)) => if x + y <= usize::MAX {
            Some(Instruction::Left((x + y) as usize))
        } else {
            None
        },
        (Instruction::Right(x), Instruction::Right(y)) => if x + y <= usize::MAX {
            Some(Instruction::Right((x + y) as usize))
        } else {
            None
        },
        (Instruction::Add(x), Instruction::Add(y)) => Some(Instruction::Add(((x + y) % 256) as u8)),
        _ => None,
    }
}

/// Appends `t` to an encoded sequence: a null instruction is dropped, one
/// that merges with the last is merged into it (and both vanish when the sum
/// is null), anything else is appended.
pub open spec fn push_encoded(s: Seq<Tree>, t: Tree) -> Seq<Tree> {
    match t {
        Tree::Op(i) => if is_null(i) {
            s
        } else if s.len() > 0 && s.last() is Op && merge(s.last()->Op_0, i) is Some {
            let m = merge(s.last()->Op_0, i)->Some_0;
            if is_null(m) {
                s.drop_last()
            } else {
                s.drop_last().push(Tree::Op(m))
            }
        } else {
            s.push(t)
        },
        Tree::Block(_) => s.push(t),
    }
}

/// The run-length encoding of a sequence of trees.
pub open spec fn encode(s: Seq<Tree>) -> Seq<Tree>
    decreases s, 1nat,
{
    if s.len() == 0 {
        seq![]
    } else {
        push_encoded(encode(s.subrange(0, s.len() - 1)), encode_one(s[s.len() - 1]))
    }
}

pub open spec fn encode_one(t: Tree) -> Tree
    decreases t, 0nat,
{
    match t {
        Tree::Op(i) => Tree::Op(i),
        Tree::Block(body) => Tree::Block(encode(body)),
    }
}

/// No instruction is null, no two adjacent instructions merge, and loop
/// bodies are encoded too.
pub open spec fn encoded(s: Seq<Tree>) -> bool
    decreases s, 1nat,
{
    if s.len() == 0 {
        true
    } else {
        let p = s.subrange(0, s.len() - 1);
        let t = s[s.len() - 1];
        &&& encoded(p)
        &&& encoded_one(t)
        &&& t is Op ==> !is_null(t->Op_0)
        &&& (t is Op && p.len() > 0 && p.last() is Op) ==> merge(p.last()->Op_0, t->Op_0) is None
    }
}

pub open spec fn encoded_one(t: Tree) -> bool
    decreases t, 0nat,
{
    match t {
        Tree::Op(_) => true,
        Tree::Block(body) => encoded(body),
    }
}

proof fn lemma_push_encoded(s: Seq<Tree>, t: Tree)
    requires
        encoded(s),
        encoded_one(t),
    ensures
        encoded(push_encoded(s, t)),
{
    let r = push_encoded(s, t);
    if s.len() > 0 {
        assert(s.drop_last() =~= s.subrange(0, s.len() - 1));
    }
    match t {
        Tree::Op(i) => {
            if is_null(i) {
            } else if s.len() > 0 && s.last() is Op && merge(s.last()->Op_0, i) is Some {
                let m = merge(s.last()->Op_0, i)->Some_0;
                let p = s.drop_last();
                assert(encoded(p));
                if !is_null(m) {
                    assert(r.subrange(0, r.len() - 1) =~= p);
                    assert(r[r.len() - 1] == Tree::Op(m));
                    if p.len() > 0 && p.last() is Op {
                        assert(p.last() == s.subrange(0, s.len() - 1).last());
                        assert(merge(p.last()->Op_0, s.last()->Op_0) is None);
                        assert(merge(p.last()->Op_0, m) is None);
                    }
                    assert(encoded_one(Tree::Op(m)));
                    assert(encoded(r));
                }
            } else {
                assert(r.subrange(0, r.len() - 1) =~= s);
                assert(r[r.len() - 1] == t);
            }
        },
        Tree::Block(_) => {
            assert(r.subrange(0, r.len() - 1) =~= s);
            assert(r[r.len() - 1] == t);
        },
    }
}

/// Every encoding is encoded.
pub proof fn lemma_encode_encoded(s: Seq<Tree>)
    ensures
        encoded(encode(s)),
    decreases s, 1nat,
{
    if s.len() > 0 {
        lemma_encode_encoded(s.subrange(0, s.len() - 1));
        lemma_encode_one_encoded(s[s.len() - 1]);
        lemma_push_encoded(encode(s.subrange(0, s.len() - 1)), encode_one(s[s.len() - 1]));
    }
}

proof fn lemma_encode_one_encoded(t: Tree)
    ensures
        encoded_one(encode_one(t)),
    decreases t, 0nat,
{
    if let Tree::Block(body) = t {
        lemma_encode_encoded(body);
    }
}

/// Encoding leaves an encoded sequence as it is.
pub proof fn lemma_encode_fixes_encoded(s: Seq<Tree>)
    requires
        encoded(s),
    ensures
        encode(s) == s,
    decreases s, 1nat,
{
    if s.len() > 0 {
        let p = s.subrange(0, s.len() - 1);
        let t = s[s.len() - 1];
        lemma_encode_fixes_encoded(p);
        lemma_encode_one_fixes(t);
        assert(p.push(t) =~= s);
    }
}

proof fn lemma_encode_one_fixes(t: Tree)
    requires
        encoded_one(t),
    ensures
        encode_one(t) == t,
    decreases t, 0nat,
{
    if let Tree::Block(body) = t {
        lemma_encode_fixes_encoded(body);
    }
}

/// Run-length encoding is idempotent.
pub proof fn lemma_encode_idempotent(s: Seq<Tree>)
    ensures
        encode(encode(s)) == encode(s),
{
    lemma_encode_encoded(s);
    lemma_encode_fixes_encoded(encode(s));
}

fn unit_of(c: Command) -> (r: Instruction)
    ensures
        r == unit(c),
{
    match c {
        Command::Left => Instruction::Left(1),
        Command::Right => Instruction::Right(1),
        Command::Add(d) => Instruction::Add(d),
        Command::In => Instruction::In,
        Command::Out => Instruction::Out,
        Command::Begin => Instruction::JumpZero(0),
        Command::End => Instruction::JumpNotZero(0),
    }
}

fn null(i: Instruction) -> (r: bool)
    ensures
        r == is_null(i),
{
    match i {
        Instruction::Left(n) => n == 0,
        Instruction::Right(n) => n == 0,
        Instruction::Add(d) => d == 0,
        _ => false,
    }
}

fn merged(a: Instruction, b: Instruction) -> (r: Option<Instruction>)
    ensures
        r == merge(a, b),
{
    match (a, b) {
        (Instruction::Left(x), Instruction::Left(y)) => if x <= usize::MAX - y {
            Some(Instruction::Left(x + y))
        } else {
            None
        },
        (Instruction::Right(x), Instruction::Right(y)) => if x <= usize::MAX - y {
            Some(Instruction::Right(x + y))
        } else {
            None
        },
        (Instruction::Add(x), Instruction::Add(y)) => Some(
            Instruction::Add(((x as u16 + y as u16) % 256) as u8),
        ),
        _ => None,
    }
}

/// Appends a statement to encoded output, merging it with the last one where
/// the two combine.
fn push_statement(out: &mut Vec<Statement>, st: Statement)
    ensures
        trees_of(final(out)@) == push_encoded(trees_of(old(out)@), tree_of(st)),
        no_jumps(old(out)@) && stmt_no_jumps(st) ==> no_jumps(final(out)@),
{
    proof {
        lemma_trees_of_len(out@);
        lemma_trees_of_push(out@, st);
        if out@.len() > 0 {
            lemma_trees_of_drop_last(out@);
        }
    }
    if let Statement::Instr(i) = st {
        if null(i) {
            return;
        }
        let n = out.len();
        if n > 0 {
            if let Statement::Instr(last) = out[n - 1] {
                if let Some(m) = merged(last, i) {
                    out.pop();
                    if !null(m) {
                        proof {
                            lemma_trees_of_push(out@, Statement::Instr(m));
                        }
                        out.push(Statement::Instr(m));
                    }
                    return;
                }
            }
        }
    }
    out.push(st);
}

/// The syntax tree as a tree of statements, one instruction per command,
/// with nothing merged.
pub fn lift_program(src: &Vec<ast::Instruction>) -> (r: Vec<Statement>)
    ensures
        trees_of(r@) == lift(src@),
    decreases src@,
{
    let mut out: Vec<Statement> = Vec::new();
    let mut i: usize = 0;
    proof {
        assert(src@.subrange(0, 0) =~= Seq::<ast::Instruction>::empty());
    }
    while i < src.len()
        invariant
            0 <= i <= src@.len(),
            trees_of(out@) == lift(src@.subrange(0, i as int)),
        decreases src@.len() - i,
    {
        let ghost p = src@.subrange(0, i as int);
        let ghost q = src@.subrange(0, i + 1);
        proof {
            assert(q.subrange(0, i as int) =~= p);
            assert(q[i as int] == src@[i as int]);
        }
        let st = match &src[i] {
            ast::Instruction::Cmd(c) => Statement::Instr(unit_of(*c)),
            ast::Instruction::Loop(body) => {
                assert(decreases_to!(src@ => src@[i as int]));
                Statement::Loop(lift_program(body))
            },
        };
        assert(tree_of(st) == lift_one(src@[i as int]));
        proof {
            lemma_trees_of_push(out@, st);
        }
        out.push(st);
        i = i + 1;
    }
    assert(src@.subrange(0, i as int) =~= src@);
    out
}

/// Run-length encodes a syntax tree.
pub fn compile(src: &Vec<ast::Instruction>) -> (r: Vec<Statement>)
    ensures
        trees_of(r@) == encode(lift(src@)),
        ast::wf_program(src@) ==> no_jumps(r@),
    decreases src@,
{
    let mut out: Vec<Statement> = Vec::new();
    let mut i: usize = 0;
    proof {
        assert(src@.subrange(0, 0) =~= Seq::<ast::Instruction>::empty());
    }
    while i < src.len()
        invariant
            0 <= i <= src@.len(),
            trees_of(out@) == encode(lift(src@.subrange(0, i as int))),
            ast::wf_program(src@) ==> no_jumps(out@),
        decreases src@.len() - i,
    {
        let ghost p = src@.subrange(0, i as int);
        let ghost q = src@.subrange(0, i + 1);
        proof {
            assert(q.subrange(0, i as int) =~= p);
            assert(q[i as int] == src@[i as int]);
            assert(lift(q) == lift(p).push(lift_one(src@[i as int])));
            assert(lift(q).subrange(0, lift(q).len() - 1) =~= lift(p));
            if ast::wf_program(src@) {
                ast::lemma_wf_element(src@, i as int);
            }
        }
        let st = match &src[i] {
            ast::Instruction::Cmd(c) => Statement::Instr(unit_of(*c)),
            ast::Instruction::Loop(body) => {
                assert(decreases_to!(src@ => src@[i as int]));
                Statement::Loop(compile(body))
            },
        };
        assert(tree_of(st) == encode_one(lift_one(src@[i as int])));
        push_statement(&mut out, st);
        i = i + 1;
    }
    assert(src@.subrange(0, i as int) =~= src@);
    out
}

} // verus!
