//! Flat bytecode: the compiler from peephole trees, and the dispatcher.
//!
//! A loop becomes `JumpZero(a)`, its body, and `JumpNotZero(b)`, where `a` is
//! the address just past the `JumpNotZero` and `b` the address just past the
//! `JumpZero`.
use vstd::prelude::*;

use crate::common::{BfError, Count, Instruction};
use crate::interpreter::{execute, observed, outcome_of};
use crate::peephole::{no_jumps, stmt_no_jumps, Statement};
use crate::semantics::{min_nat, step_instr, Outcome};
use crate::state::{Machine, State};

verus! {

/// The number of bytecode instructions that a sequence of statements becomes.
pub open spec fn code_len(s: Seq<Statement>) -> nat
    decreases s, 1nat,
{
    if s.len() == 0 {
        0
    } else {
        code_len(s.subrange(0, s.len() - 1)) + stmt_len(s[s.len() - 1])
    }
}

pub open spec fn stmt_len(st: Statement) -> nat
    decreases st, 0nat,
{
    match st {
        Statement::Instr(_) => 1,
        Statement::Loop(body) => code_len(body@) + 2,
    }
}

/// The bytecode of a sequence of statements placed at address `base`.
pub open spec fn flatten(s: Seq<Statement>, base: int) -> Seq<Instruction>
    decreases s, 1nat,
{
    if s.len() == 0 {
        seq![]
    } else {
        let p = s.subrange(0, s.len() - 1);
        flatten(p, base) + flatten_stmt(s[s.len() - 1], base + code_len(p))
    }
}

/// The bytecode of one statement placed at address `base`.
pub open spec fn flatten_stmt(st: Statement, base: int) -> Seq<Instruction>
    decreases st, 0nat,
{
    match st {
        Statement::Instr(i) => seq![i],
        Statement::Loop(body) => seq![Instruction::JumpZero((base + code_len(body@) + 2) as usize)]
            + flatten(body@, base + 1) + seq![Instruction::JumpNotZero((base + 1) as usize)],
    }
}

/// Every jump of `c`, placed at address `base`, has its partner: a
/// `JumpZero(a)` at `i` has a `JumpNotZero(i + 1)` at `a - 1`, and a
/// `JumpNotZero(b)` at `j` has a `JumpZero(j + 1)` at `b - 1`.
pub open spec fn jumps_matched(c: Seq<Instruction>, base: int) -> bool {
    &&& forall|i: int|
        0 <= i < c.len() && (#[trigger] c[i]) is JumpZero ==> {
            let a = c[i]->JumpZero_0 as int;
            &&& base + i + 2 <= a <= base + c.len()
            &&& c[a - 1 - base] is JumpNotZero
            &&& c[a - 1 - base]->JumpNotZero_0 == base + i + 1
        }
    &&& forall|j: int|
        0 <= j < c.len() && (#[trigger] c[j]) is JumpNotZero ==> {
            let b = c[j]->JumpNotZero_0 as int;
            &&& base + 1 <= b <= base + j
            &&& c[b - 1 - base] is JumpZero
            &&& c[b - 1 - base]->JumpZero_0 == base + j + 1
        }
}

proof fn lemma_flatten_len(s: Seq<Statement>, base: int)
    ensures
        flatten(s, base).len() == code_len(s),
    decreases s, 1nat,
{
    if s.len() > 0 {
        let p = s.subrange(0, s.len() - 1);
        lemma_flatten_len(p, base);
        lemma_flatten_stmt_len(s[s.len() - 1], base + code_len(p));
    }
}

proof fn lemma_flatten_stmt_len(st: Statement, base: int)
    ensures
        flatten_stmt(st, base).len() == stmt_len(st),
    decreases st, 0nat,
{
    if let Statement::Loop(body) = st {
        lemma_flatten_len(body@, base + 1);
    }
}

/// The bytecode of a sequence has `code_len` instructions.
pub proof fn lemma_flatten_len_pub(s: Seq<Statement>, base: int)
    ensures
        flatten(s, base).len() == code_len(s),
{
    lemma_flatten_len(s, base);
}

/// The bytecode of a statement has `stmt_len` instructions.
pub proof fn lemma_flatten_stmt_len_pub(st: Statement, base: int)
    ensures
        flatten_stmt(st, base).len() == stmt_len(st),
{
    lemma_flatten_stmt_len(st, base);
}

proof fn lemma_matched_concat(c1: Seq<Instruction>, c2: Seq<Instruction>, base: int)
    requires
        jumps_matched(c1, base),
        jumps_matched(c2, base + c1.len()),
    ensures
        jumps_matched(c1 + c2, base),
{
    let c = c1 + c2;
    assert forall|i: int| 0 <= i < c.len() && (#[trigger] c[i]) is JumpZero implies {
        let a = c[i]->JumpZero_0 as int;
        &&& base + i + 2 <= a <= base + c.len()
        &&& c[a - 1 - base] is JumpNotZero
        &&& c[a - 1 - base]->JumpNotZero_0 == base + i + 1
    } by {
        if i < c1.len() {
            assert(c1[i] == c[i]);
        } else {
            assert(c2[i - c1.len()] == c[i]);
        }
    }
    assert forall|j: int| 0 <= j < c.len() && (#[trigger] c[j]) is JumpNotZero implies {
        let b = c[j]->JumpNotZero_0 as int;
        &&& base + 1 <= b <= base + j
        &&& c[b - 1 - base] is JumpZero
        &&& c[b - 1 - base]->JumpZero_0 == base + j + 1
    } by {
        if j < c1.len() {
            assert(c1[j] == c[j]);
        } else {
            assert(c2[j - c1.len()] == c[j]);
        }
    }
}

proof fn lemma_matched_wrap(c: Seq<Instruction>, base: int)
    requires
        jumps_matched(c, base + 1),
        0 <= base,
        base + c.len() + 2 <= usize::MAX,
    ensures
        jumps_matched(
            seq![Instruction::JumpZero((base + c.len() + 2) as usize)] + c + seq![
                Instruction::JumpNotZero((base + 1) as usize),
            ],
            base,
        ),
{
    let w = seq![Instruction::JumpZero((base + c.len() + 2) as usize)] + c + seq![
        Instruction::JumpNotZero((base + 1) as usize),
    ];
    assert(w.len() == c.len() + 2);
    assert(w[0] == Instruction::JumpZero((base + c.len() + 2) as usize));
    assert(w[c.len() + 1int] == Instruction::JumpNotZero((base + 1) as usize));
    assert forall|k: int| 1 <= k <= c.len() implies #[trigger] w[k] == c[k - 1] by {}
    assert forall|i: int| 0 <= i < w.len() && (#[trigger] w[i]) is JumpZero implies {
        let a = w[i]->JumpZero_0 as int;
        &&& base + i + 2 <= a <= base + w.len()
        &&& w[a - 1 - base] is JumpNotZero
        &&& w[a - 1 - base]->JumpNotZero_0 == base + i + 1
    } by {
        if 1 <= i <= c.len() {
            assert(c[i - 1] == w[i]);
            let a = c[i - 1]->JumpZero_0 as int;
            assert(w[a - 1 - base] == c[a - 1 - (base + 1)]);
        }
    }
    assert forall|j: int| 0 <= j < w.len() && (#[trigger] w[j]) is JumpNotZero implies {
        let b = w[j]->JumpNotZero_0 as int;
        &&& base + 1 <= b <= base + j
        &&& w[b - 1 - base] is JumpZero
        &&& w[b - 1 - base]->JumpZero_0 == base + j + 1
    } by {
        if 1 <= j <= c.len() {
            assert(c[j - 1] == w[j]);
            let b = c[j - 1]->JumpNotZero_0 as int;
            assert(w[b - 1 - base] == c[b - 1 - (base + 1)]);
        }
    }
}

/// The bytecode of a jump-free tree has every jump matched.
pub proof fn lemma_flatten_jumps_matched(s: Seq<Statement>, base: int)
    requires
        no_jumps(s),
        0 <= base,
        base + code_len(s) <= usize::MAX,
    ensures
        jumps_matched(flatten(s, base), base),
    decreases s, 1nat,
{
    if s.len() > 0 {
        let p = s.subrange(0, s.len() - 1);
        lemma_flatten_len(p, base);
        lemma_flatten_jumps_matched(p, base);
        lemma_flatten_stmt_jumps_matched(s[s.len() - 1], base + code_len(p));
        lemma_matched_concat(flatten(p, base), flatten_stmt(s[s.len() - 1], base + code_len(p)), base);
    }
}

proof fn lemma_flatten_stmt_jumps_matched(st: Statement, base: int)
    requires
        stmt_no_jumps(st),
        0 <= base,
        base + stmt_len(st) <= usize::MAX,
    ensures
        jumps_matched(flatten_stmt(st, base), base),
    decreases st, 0nat,
{
    match st {
        Statement::Instr(i) => {
            let c = flatten_stmt(st, base);
            assert(c.len() == 1 && c[0] == i);
        },
        Statement::Loop(body) => {
            lemma_flatten_len(body@, base + 1);
            lemma_flatten_jumps_matched(body@, base + 1);
            lemma_matched_wrap(flatten(body@, base + 1), base);
        },
    }
}

/// Converts an address to a `Count`.
pub fn usize_to_count(count: usize) -> (r: Count)
    ensures
        r == count,
{
    count
}

/// The bytecode compiler: the instructions issued so far.
pub struct Compiler {
    instructions: Vec<Instruction>,
}

impl View for Compiler {
    type V = Seq<Instruction>;

    closed spec fn view(&self) -> Seq<Instruction> {
        self.instructions@
    }
}

impl Compiler {
    /// A compiler that has issued nothing.
    pub fn new() -> (r: Compiler)
        ensures
            r@ == Seq::<Instruction>::empty(),
    {
        Compiler { instructions: Vec::new() }
    }

    /// Appends the bytecode of `src`, placed at the current end.
    pub fn compile(&mut self, src: &Vec<Statement>)
        requires
            old(self)@.len() + code_len(src@) <= usize::MAX,
        ensures
            final(self)@ == old(self)@ + flatten(src@, old(self)@.len() as int),
        decreases src@,
    {
        let ghost base = self@.len() as int;
        let ghost start = self@;
        let mut i: usize = 0;
        while i < src.len()
            invariant
                0 <= i <= src@.len(),
                start == old(self)@,
                base == start.len(),
                base + code_len(src@) <= usize::MAX,
                self@ == start + flatten(src@.subrange(0, i as int), base),
            decreases src@.len() - i,
        {
            let ghost p = src@.subrange(0, i as int);
            let ghost q = src@.subrange(0, i + 1);
            assert(q.subrange(0, i as int) =~= p);
            assert(q[i as int] == src@[i as int]);
            proof {
                lemma_flatten_len(p, base);
                lemma_code_len_prefix(src@, (i + 1) as nat);
                assert(code_len(q) == code_len(p) + stmt_len(src@[i as int]));
            }
            let ghost at = self@.len() as int;
            assert(at == base + code_len(p));
            match &src[i] {
                Statement::Instr(instruction) => {
                    self.issue(*instruction);
                },
                Statement::Loop(body) => {
                    assert(decreases_to!(src@ => src@[i as int]));
                    let begin_pc = self.instructions.len();
                    self.issue(Instruction::JumpZero(0));
                    self.compile(body);
                    let end_pc = self.instructions.len();
                    proof {
                        lemma_flatten_len(body@, at + 1);
                    }
                    self.issue(Instruction::JumpNotZero(usize_to_count(begin_pc + 1)));
                    self.instructions.set(begin_pc, Instruction::JumpZero(usize_to_count(end_pc + 1)));
                    proof {
                        lemma_flatten_len(body@, at + 1);
                        assert(self@ =~= start + flatten(p, base) + flatten_stmt(src@[i as int], at));
                    }
                },
            }
            assert(self@ =~= start + flatten(q, base));
            i = i + 1;
        }
        assert(src@.subrange(0, i as int) =~= src@);
    }

    /// The instructions issued, as a program.
    pub fn into_program(self) -> (r: Vec<Instruction>)
        ensures
            r@ == self@,
    {
        self.instructions
    }

    fn issue(&mut self, instruction: Instruction)
        ensures
            final(self)@ == old(self)@.push(instruction),
    {
        self.instructions.push(instruction);
    }
}

/// The length of a prefix's bytecode is at most that of the whole.
proof fn lemma_code_len_prefix(s: Seq<Statement>, i: nat)
    requires
        i <= s.len(),
    ensures
        code_len(s.subrange(0, i as int)) <= code_len(s),
    decreases s.len() - i,
{
    if i < s.len() {
        lemma_code_len_prefix(s, i + 1);
        let q = s.subrange(0, (i + 1) as int);
        assert(q.subrange(0, i as int) =~= s.subrange(0, i as int));
    } else {
        assert(s.subrange(0, i as int) =~= s);
    }
}

/// Compiles a peephole program to flat bytecode. Each jump of the result
/// has its partner.
pub fn compile(src: &Vec<Statement>) -> (r: Vec<Instruction>)
    requires
        code_len(src@) <= usize::MAX,
    ensures
        r@ == flatten(src@, 0),
        no_jumps(src@) ==> jumps_matched(r@, 0),
{
    let mut compiler = Compiler::new();
    compiler.compile(src);
    proof {
        assert(compiler@ =~= flatten(src@, 0));
        if no_jumps(src@) {
            lemma_flatten_jumps_matched(src@, 0);
        }
    }
    compiler.into_program()
}

/// Continues at address `a` after a taken jump from `pc`: a jump back
/// spends one step of the budget, a jump forward spends none.
pub open spec fn jump_to(p: Seq<Instruction>, pc: int, a: int, m: Machine, fuel: nat) -> Outcome
    decreases fuel, p.len() - pc, 0nat,
{
    if a >= p.len() {
        (m, Ok(fuel))
    } else if a > pc {
        run_flat(p, a, m, fuel)
    } else if fuel == 0 {
        (m, Err(BfError::StepLimit))
    } else {
        run_flat(p, a, m, (fuel - 1) as nat)
    }
}

/// Runs bytecode from address `pc`. A jump back spends one step of the
/// budget; so does each head movement of a `FindZero` instruction.
pub open spec fn run_flat(p: Seq<Instruction>, pc: int, m: Machine, fuel: nat) -> Outcome
    decreases fuel, p.len() - pc, 1nat,
{
    if pc < 0 || pc >= p.len() {
        (m, Ok(fuel))
    } else {
        match p[pc] {
            Instruction::JumpZero(a) => if m.cell() == 0 {
                jump_to(p, pc, a as int, m, fuel)
            } else {
                run_flat(p, pc + 1, m, fuel)
            },
            Instruction::JumpNotZero(a) => if m.cell() != 0 {
                jump_to(p, pc, a as int, m, fuel)
            } else {
                run_flat(p, pc + 1, m, fuel)
            },
            i => {
                let (m2, r) = step_instr(m, i, fuel);
                match r {
                    Ok(f2) => run_flat(p, pc + 1, m2, min_nat(f2, fuel)),
                    Err(e) => (m2, Err(e)),
                }
            },
        }
    }
}

/// Runs a bytecode program on `state` with a budget of `fuel` steps; returns
/// the budget that is left, or the first error.
pub fn interpret(instructions: &Vec<Instruction>, state: &mut State, fuel: u64) -> (r: Result<
    u64,
    BfError,
>)
    requires
        old(state).wf(),
    ensures
        final(state).wf(),
        outcome_of(final(state), r) == run_flat(instructions@, 0, old(state)@, fuel as nat),
{
    let ghost m0 = state@;
    let mut pc: usize = 0;
    let mut f = fuel;
    while pc < instructions.len()
        invariant
            state.wf(),
            m0 == old(state)@,
            run_flat(instructions@, 0, m0, fuel as nat) == run_flat(
                instructions@,
                pc as int,
                state@,
                f as nat,
            ),
        decreases f, instructions@.len() - pc,
    {
        let (taken, address) = match instructions[pc] {
            Instruction::JumpZero(address) => (state.load() == 0, address),
            Instruction::JumpNotZero(address) => (state.load() != 0, address),
            _ => (false, 0),
        };
        match instructions[pc] {
            Instruction::JumpZero(_) | Instruction::JumpNotZero(_) => {
                assert(run_flat(instructions@, pc as int, state@, f as nat) == if taken {
                    jump_to(instructions@, pc as int, address as int, state@, f as nat)
                } else {
                    run_flat(instructions@, pc + 1, state@, f as nat)
                });
                if !taken {
                    pc = pc + 1;
                } else if address >= instructions.len() {
                    return Ok(f);
                } else if address > pc {
                    pc = address;
                } else {
                    if f == 0 {
                        return Err(BfError::StepLimit);
                    }
                    f = f - 1;
                    pc = address;
                }
            },
            i => {
                let ghost old_f = f;
                match execute(i, state, f) {
                    Ok(f2) => {
                        f = f2;
                    },
                    Err(e) => {
                        return Err(e);
                    },
                }
                assert(min_nat(f as nat, old_f as nat) == f as nat);
                pc = pc + 1;
            },
        }
    }
    Ok(f)
}

/// Runs bytecode on a fresh tape of `capacity` cells that reads `input`,
/// with a budget of `fuel` steps.
pub fn interpret_memory(
    instructions: &Vec<Instruction>,
    capacity: usize,
    input: Vec<u8>,
    fuel: u64,
) -> (r: (Result<u64, BfError>, Vec<u8>))
    requires
        capacity >= 1,
    ensures
        observed(run_flat(instructions@, 0, Machine::fresh(capacity as nat, input@), fuel as nat), r),
{
    let mut state = State::new(capacity, input);
    let r = interpret(instructions, &mut state, fuel);
    (r, state.into_output())
}

} // verus!
