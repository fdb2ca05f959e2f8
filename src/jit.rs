//! The instruction plan of the native backend.
//!
//! The plan is the program's bytecode with, for each instruction, whether
//! the emitted machine code must test the tape bounds at run time. In
//! checked mode the bounds analysis decides; in unchecked mode no test is
//! emitted at all. Assembling the plan into machine code is left to the
//! caller.
use vstd::prelude::*;

use crate::analysis::{after, loop_entry, proves, AbstractInterpreter, Slack};
use crate::bytecode::{code_len, flatten, flatten_stmt, stmt_len};
use crate::soundness::knowledge_after;
use crate::common::Instruction;
use crate::peephole::Statement;

verus! {

/// One instruction of the plan, and whether its bounds are tested at run time.
#[derive(Clone, Copy, Debug, PartialEq, Eq, Structural)]
pub struct Step {
    pub instruction: Instruction,
    pub check: bool,
}

/// The instruction touches a cell away from the head, or moves the head.
pub open spec fn accesses(i: Instruction) -> bool {
    i is Left || i is Right || i is OffsetAddRight || i is OffsetAddLeft || i is FindZeroRight
        || i is FindZeroLeft
}

/// The plan of a sequence of statements placed at address `base`, starting
/// from knowledge `k`; and the knowledge after it.
pub open spec fn plan(s: Seq<Statement>, base: int, k: Slack, checked: bool) -> (Seq<Step>, Slack)
    decreases s, 1nat,
{
    if s.len() == 0 {
        (seq![], k)
    } else {
        let p = s.subrange(0, s.len() - 1);
        let (a, k1) = plan(p, base, k, checked);
        let (b, k2) = plan_one(s[s.len() - 1], base + code_len(p), k1, checked);
        (a + b, k2)
    }
}

pub open spec fn plan_one(st: Statement, base: int, k: Slack, checked: bool) -> (Seq<Step>, Slack)
    decreases st, 0nat,
{
    match st {
        Statement::Instr(i) => (
            seq![Step { instruction: i, check: checked && accesses(i) && !proves(k, i) }],
            after(k, i),
        ),
        Statement::Loop(body) => {
            let e = loop_entry(k, body@);
            (
                seq![Step { instruction: Instruction::JumpZero((base + code_len(body@) + 2) as usize), check: false }]
                    + plan(body@, base + 1, e, checked).0
                    + seq![Step { instruction: Instruction::JumpNotZero((base + 1) as usize), check: false }],
                e,
            )
        },
    }
}

proof fn lemma_plan_len(s: Seq<Statement>, base: int, k: Slack, checked: bool)
    ensures
        plan(s, base, k, checked).0.len() == code_len(s),
    decreases s, 1nat,
{
    if s.len() > 0 {
        let p = s.subrange(0, s.len() - 1);
        lemma_plan_len(p, base, k, checked);
        let k1 = plan(p, base, k, checked).1;
        lemma_plan_one_len(s[s.len() - 1], base + code_len(p), k1, checked);
    }
}

proof fn lemma_plan_one_len(st: Statement, base: int, k: Slack, checked: bool)
    ensures
        plan_one(st, base, k, checked).0.len() == stmt_len(st),
    decreases st, 0nat,
{
    if let Statement::Loop(body) = st {
        lemma_plan_len(body@, base + 1, loop_entry(k, body@), checked);
    }
}

proof fn lemma_code_len_prefix(s: Seq<Statement>, i: nat)
    requires
        i <= s.len(),
    ensures
        code_len(s.subrange(0, i as int)) <= code_len(s),
    decreases s.len() - i,
{
    if i < s.len() {
        lemma_code_len_prefix(s, i + 1);
        let q = s.subrange(0, (i + 1) as int);
        assert(q.subrange(0, i as int) =~= s.subrange(0, i as int));
    } else {
        assert(s.subrange(0, i as int) =~= s);
    }
}

/// The instructions of a plan.
pub open spec fn instructions(p: Seq<Step>) -> Seq<Instruction> {
    p.map_values(|st: Step| st.instruction)
}

/// The plan's instructions are the program's bytecode, and the knowledge
/// after it is that of the analysis.
pub proof fn lemma_plan_layout(s: Seq<Statement>, base: int, k: Slack, checked: bool)
    ensures
        instructions(plan(s, base, k, checked).0) == flatten(s, base),
        plan(s, base, k, checked).1 == knowledge_after(s, k),
    decreases s, 1nat,
{
    if s.len() > 0 {
        let p = s.subrange(0, s.len() - 1);
        lemma_plan_layout(p, base, k, checked);
        let (a, k1) = plan(p, base, k, checked);
        lemma_plan_one_layout(s[s.len() - 1], base + code_len(p), k1, checked);
        let b = plan_one(s[s.len() - 1], base + code_len(p), k1, checked).0;
        assert(instructions(a + b) =~= instructions(a) + instructions(b));
    }
}

proof fn lemma_plan_one_layout(st: Statement, base: int, k: Slack, checked: bool)
    ensures
        instructions(plan_one(st, base, k, checked).0) == flatten_stmt(st, base),
    decreases st, 0nat,
{
    match st {
        Statement::Instr(i) => {
            assert(instructions(plan_one(st, base, k, checked).0) =~= seq![i]);
        },
        Statement::Loop(body) => {
            let e = loop_entry(k, body@);
            lemma_plan_layout(body@, base + 1, e, checked);
            let inner = plan(body@, base + 1, e, checked).0;
            let j0 = Step {
                instruction: Instruction::JumpZero((base + code_len(body@) + 2) as usize),
                check: false,
            };
            let j1 = Step { instruction: Instruction::JumpNotZero((base + 1) as usize), check: false };
            assert(instructions(seq![j0] + inner + seq![j1]) =~= seq![j0.instruction] + instructions(
                inner,
            ) + seq![j1.instruction]);
        },
    }
}

/// No step of the plan tests the bounds.
pub open spec fn untested(p: Seq<Step>) -> bool {
    forall|j: int| 0 <= j < p.len() ==> !(#[trigger] p[j]).check
}

proof fn lemma_unchecked_untested(s: Seq<Statement>, base: int, k: Slack)
    ensures
        untested(plan(s, base, k, false).0),
    decreases s, 1nat,
{
    if s.len() > 0 {
        let q = s.subrange(0, s.len() - 1);
        lemma_unchecked_untested(q, base, k);
        let (a, k1) = plan(q, base, k, false);
        lemma_unchecked_one_untested(s[s.len() - 1], base + code_len(q), k1);
        let b = plan_one(s[s.len() - 1], base + code_len(q), k1, false).0;
        assert forall|j: int| 0 <= j < (a + b).len() implies !(#[trigger] (a + b)[j]).check by {
            if j >= a.len() {
                assert((a + b)[j] == b[j - a.len()]);
            }
        }
    }
}

proof fn lemma_unchecked_one_untested(st: Statement, base: int, k: Slack)
    ensures
        untested(plan_one(st, base, k, false).0),
    decreases st, 0nat,
{
    if let Statement::Loop(body) = st {
        let e = loop_entry(k, body@);
        lemma_unchecked_untested(body@, base + 1, e);
        let inner = plan(body@, base + 1, e, false).0;
        let w = plan_one(st, base, k, false).0;
        assert forall|j: int| 0 <= j < w.len() implies !(#[trigger] w[j]).check by {
            if 1 <= j < w.len() - 1 {
                assert(w[j] == inner[j - 1]);
            }
        }
    }
}

/// The checked and the unchecked plans of a program run the same
/// instructions, the program's bytecode; only the bounds tests differ, and
/// the unchecked plan has none.
pub proof fn lemma_checked_unchecked_same_code(s: Seq<Statement>)
    ensures
        instructions(plan(s, 0, Slack::unknown(), true).0) == instructions(
            plan(s, 0, Slack::unknown(), false).0,
        ),
        untested(plan(s, 0, Slack::unknown(), false).0),
{
    lemma_plan_layout(s, 0, Slack::unknown(), true);
    lemma_plan_layout(s, 0, Slack::unknown(), false);
    lemma_unchecked_untested(s, 0, Slack::unknown());
}

fn accesses_tape(i: Instruction) -> (r: bool)
    ensures
        r == accesses(i),
{
    match i {
        Instruction::Left(_) | Instruction::Right(_) | Instruction::OffsetAddRight(_)
        | Instruction::OffsetAddLeft(_) | Instruction::FindZeroRight(_)
        | Instruction::FindZeroLeft(_) => true,
        _ => false,
    }
}

/// The planner: the steps issued so far, and the bounds analysis.
pub struct Compiler {
    steps: Vec<Step>,
    checked: bool,
    interpreter: AbstractInterpreter,
}

impl Compiler {
    pub closed spec fn steps(&self) -> Seq<Step> {
        self.steps@
    }

    pub closed spec fn checked(&self) -> bool {
        self.checked
    }

    pub closed spec fn knowledge(&self) -> Slack {
        self.interpreter.current()
    }

    pub closed spec fn saved(&self) -> Seq<Slack> {
        self.interpreter.saved()
    }

    /// A planner at the start of a program.
    pub fn new(checked: bool) -> (r: Compiler)
        ensures
            r.steps() == Seq::<Step>::empty(),
            r.checked() == checked,
            r.knowledge() == Slack::unknown(),
    {
        Compiler { steps: Vec::new(), checked, interpreter: AbstractInterpreter::new() }
    }

    /// Appends the plan of `src`, placed at the current end.
    pub fn compile(&mut self, src: &Vec<Statement>)
        requires
            old(self).steps().len() + code_len(src@) <= usize::MAX,
        ensures
            final(self).checked() == old(self).checked(),
            final(self).saved() == old(self).saved(),
            (final(self).steps(), final(self).knowledge()) == ({
                let (p, k) = plan(src@, old(self).steps().len() as int, old(self).knowledge(), old(self).checked());
                (old(self).steps() + p, k)
            }),
        decreases src@,
    {
        let ghost base = self.steps@.len() as int;
        let ghost start = self.steps@;
        let ghost k0 = self.interpreter.current();
        let mut i: usize = 0;
        while i < src.len()
            invariant
                0 <= i <= src@.len(),
                start == old(self).steps(),
                k0 == old(self).knowledge(),
                self.checked == old(self).checked(),
                self.interpreter.saved() == old(self).saved(),
                base == start.len(),
                base + code_len(src@) <= usize::MAX,
                self.steps@ == start + plan(src@.subrange(0, i as int), base, k0, self.checked).0,
                self.interpreter.current() == plan(src@.subrange(0, i as int), base, k0, self.checked).1,
            decreases src@.len() - i,
        {
            let ghost p = src@.subrange(0, i as int);
            let ghost q = src@.subrange(0, i + 1);
            let ghost k1 = self.interpreter.current();
            assert(q.subrange(0, i as int) =~= p);
            assert(q[i as int] == src@[i as int]);
            proof {
                lemma_plan_len(p, base, k0, self.checked);
                lemma_code_len_prefix(src@, (i + 1) as nat);
                assert(code_len(q) == code_len(p) + stmt_len(src@[i as int]));
            }
            let ghost at = self.steps@.len() as int;
            assert(at == base + code_len(p));
            match &src[i] {
                Statement::Instr(instruction) => {
                    let instruction = *instruction;
                    let proved = match instruction {
                        Instruction::Right(n) => self.interpreter.move_right(n),
                        Instruction::Left(n) => self.interpreter.move_left(n),
                        Instruction::OffsetAddRight(k) => self.interpreter.check_right(k),
                        Instruction::OffsetAddLeft(k) => self.interpreter.check_left(k),
                        Instruction::FindZeroRight(_) => {
                            self.interpreter.reset_right();
                            false
                        },
                        Instruction::FindZeroLeft(_) => {
                            self.interpreter.reset_left();
                            false
                        },
                        _ => false,
                    };
                    assert(proved == proves(k1, instruction));
                    assert(self.interpreter.current() == after(k1, instruction));
                    let check = self.checked && accesses_tape(instruction) && !proved;
                    self.steps.push(Step { instruction, check });
                },
                Statement::Loop(body) => {
                    assert(decreases_to!(src@ => src@[i as int]));
                    let begin_pc = self.steps.len();
                    self.steps.push(Step { instruction: Instruction::JumpZero(0), check: false });
                    self.interpreter.enter_loop(body);
                    self.compile(body);
                    proof {
                        lemma_plan_len(body@, at + 1, loop_entry(k1, body@), self.checked);
                    }
                    let end_pc = self.steps.len();
                    self.steps.push(
                        Step { instruction: Instruction::JumpNotZero(begin_pc + 1), check: false },
                    );
                    self.steps.set(
                        begin_pc,
                        Step { instruction: Instruction::JumpZero(end_pc + 1), check: false },
                    );
                    self.interpreter.leave_loop();
                    proof {
                        assert(self.steps@ =~= start + plan(p, base, k0, self.checked).0 + plan_one(
                            src@[i as int],
                            at,
                            k1,
                            self.checked,
                        ).0);
                    }
                },
            }
            assert(self.steps@ =~= start + plan(q, base, k0, self.checked).0);
            i = i + 1;
        }
        assert(src@.subrange(0, i as int) =~= src@);
    }

    /// The steps planned.
    pub fn into_program(self) -> (r: Vec<Step>)
        ensures
            r@ == self.steps(),
    {
        self.steps
    }
}

/// Plans the native code of a peephole program. With `checked`, each tape
/// access that the bounds analysis does not prove safe is tested at run
/// time; without it, nothing is tested.
pub fn compile(program: &Vec<Statement>, checked: bool) -> (r: Vec<Step>)
    requires
        code_len(program@) <= usize::MAX,
    ensures
        r@ == plan(program@, 0, Slack::unknown(), checked).0,
        instructions(r@) == flatten(program@, 0),
{
    proof {
        lemma_plan_layout(program@, 0, Slack::unknown(), checked);
    }
    let mut compiler = Compiler::new(checked);
    compiler.compile(program);
    assert(compiler.steps() =~= plan(program@, 0, Slack::unknown(), checked).0);
    compiler.into_program()
}

} // verus!
