//! Bounds analysis for the native backend: an abstract interpreter that
//! tracks how far the head is known to be from each end of the tape, so that
//! the emitter can leave out runtime checks on movements it proves safe.
use vstd::prelude::*;

use crate::common::{Count, Instruction};
use crate::peephole::Statement;

verus! {

/// What is known of the head `h` on a tape of `cap` cells:
/// `left <= h` and `h + right < cap`.
#[derive(Clone, Copy, Debug, PartialEq, Eq, Structural)]
pub struct Slack {
    pub left: usize,
    pub right: usize,
}

impl Slack {
    /// The knowledge holds of head `h` on a tape of `cap` cells.
    pub open spec fn holds(self, h: int, cap: int) -> bool {
        self.left <= h && h + self.right < cap
    }

    /// Nothing known beyond `0 <= h < cap`.
    pub open spec fn unknown() -> Slack {
        Slack { left: 0, right: 0 }
    }
}

/// The sequence may move the head left: a `Left` or `FindZeroLeft` stands in
/// it, at any depth.
pub open spec fn moves_left(s: Seq<Statement>) -> bool
    decreases s, 1nat,
{
    if s.len() == 0 {
        false
    } else {
        moves_left(s.subrange(0, s.len() - 1)) || stmt_moves_left(s[s.len() - 1])
    }
}

pub open spec fn stmt_moves_left(st: Statement) -> bool
    decreases st, 0nat,
{
    match st {
        Statement::Instr(i) => i is Left || i is FindZeroLeft,
        Statement::Loop(body) => moves_left(body@),
    }
}

/// The sequence may move the head right.
pub open spec fn moves_right(s: Seq<Statement>) -> bool
    decreases s, 1nat,
{
    if s.len() == 0 {
        false
    } else {
        moves_right(s.subrange(0, s.len() - 1)) || stmt_moves_right(s[s.len() - 1])
    }
}

pub open spec fn stmt_moves_right(st: Statement) -> bool
    decreases st, 0nat,
{
    match st {
        Statement::Instr(i) => i is Right || i is FindZeroRight,
        Statement::Loop(body) => moves_right(body@),
    }
}

/// The knowledge that holds at the start of every iteration of a loop with
/// this body, and after the loop: the side toward which the body may move is
/// forgotten.
pub open spec fn loop_entry(s: Slack, body: Seq<Statement>) -> Slack {
    Slack {
        left: if moves_left(body) { 0 } else { s.left },
        right: if moves_right(body) { 0 } else { s.right },
    }
}

/// The analysis proves the access that instruction `i` makes in bounds.
pub open spec fn proves(s: Slack, i: Instruction) -> bool {
    match i {
        Instruction::Right(n) => n <= s.right,
        Instruction::Left(n) => n <= s.left,
        Instruction::OffsetAddRight(k) => k <= s.right,
        Instruction::OffsetAddLeft(k) => k <= s.left,
        _ => false,
    }
}

/// The knowledge after instruction `i`, given that it did not fail.
pub open spec fn after(s: Slack, i: Instruction) -> Slack {
    match i {
        Instruction::Right(n) => Slack {
            left: if s.left + n <= usize::MAX { (s.left + n) as usize } else { s.left },
            right: if n <= s.right { (s.right - n) as usize } else { 0 },
        },
        Instruction::Left(n) => Slack {
            left: if n <= s.left { (s.left - n) as usize } else { 0 },
            right: if s.right + n <= usize::MAX { (s.right + n) as usize } else { s.right },
        },
        Instruction::FindZeroRight(_) => Slack { right: 0, ..s },
        Instruction::FindZeroLeft(_) => Slack { left: 0, ..s },
        _ => s,
    }
}

/// The abstract interpreter: the current knowledge, and the knowledge saved
/// at the entry of each enclosing loop.
pub struct AbstractInterpreter {
    current: Slack,
    saved: Vec<Slack>,
}

impl AbstractInterpreter {
    pub closed spec fn current(&self) -> Slack {
        self.current
    }

    pub closed spec fn saved(&self) -> Seq<Slack> {
        self.saved@
    }

    /// The knowledge at the start of a program: the head is on the first cell.
    pub fn new() -> (r: AbstractInterpreter)
        ensures
            r.current() == Slack::unknown(),
            r.saved() == Seq::<Slack>::empty(),
    {
        AbstractInterpreter { current: Slack { left: 0, right: 0 }, saved: Vec::new() }
    }

    /// The current knowledge.
    pub fn slack(&self) -> (r: Slack)
        ensures
            r == self.current(),
    {
        self.current
    }

    /// Models a move right by `n`; returns whether it is proved in bounds.
    pub fn move_right(&mut self, n: Count) -> (r: bool)
        ensures
            r == proves(old(self).current(), Instruction::Right(n)),
            final(self).current() == after(old(self).current(), Instruction::Right(n)),
            final(self).saved() == old(self).saved(),
            forall|h: int, cap: int|
                #![auto]
                old(self).current().holds(h, cap) && r ==> h + n < cap,
            forall|h: int, cap: int|
                #![auto]
                old(self).current().holds(h, cap) && h + n < cap ==> final(self).current().holds(
                    h + n,
                    cap,
                ),
    {
        let s = self.current;
        let proved = n <= s.right;
        let left = if s.left <= usize::MAX - n { s.left + n } else { s.left };
        let right = if proved { s.right - n } else { 0 };
        self.current = Slack { left, right };
        proved
    }

    /// Models a move left by `n`; returns whether it is proved in bounds.
    pub fn move_left(&mut self, n: Count) -> (r: bool)
        ensures
            r == proves(old(self).current(), Instruction::Left(n)),
            final(self).current() == after(old(self).current(), Instruction::Left(n)),
            final(self).saved() == old(self).saved(),
            forall|h: int, cap: int|
                #![auto]
                old(self).current().holds(h, cap) && r ==> h - n >= 0,
            forall|h: int, cap: int|
                #![auto]
                old(self).current().holds(h, cap) && h - n >= 0 ==> final(self).current().holds(
                    h - n,
                    cap,
                ),
    {
        let s = self.current;
        let proved = n <= s.left;
        let left = if proved { s.left - n } else { 0 };
        let right = if s.right <= usize::MAX - n { s.right + n } else { s.right };
        self.current = Slack { left, right };
        proved
    }

    /// Whether the cell `k` to the right of the head is proved in bounds.
    pub fn check_right(&self, k: Count) -> (r: bool)
        ensures
            r == proves(self.current(), Instruction::OffsetAddRight(k)),
            forall|h: int, cap: int| #![auto] self.current().holds(h, cap) && r ==> h + k < cap,
    {
        k <= self.current.right
    }

    /// Whether the cell `k` to the left of the head is proved in bounds.
    pub fn check_left(&self, k: Count) -> (r: bool)
        ensures
            r == proves(self.current(), Instruction::OffsetAddLeft(k)),
            forall|h: int, cap: int| #![auto] self.current().holds(h, cap) && r ==> h - k >= 0,
    {
        k <= self.current.left
    }

    /// Forgets the distance to the right end: the head moved right by an unknown amount.
    pub fn reset_right(&mut self)
        ensures
            final(self).current() == (Slack { right: 0, ..old(self).current() }),
            final(self).saved() == old(self).saved(),
            forall|h: int, h2: int, cap: int|
                #![auto]
                old(self).current().holds(h, cap) && h <= h2 < cap ==> final(self).current().holds(
                    h2,
                    cap,
                ),
    {
        self.current = Slack { right: 0, ..self.current };
    }

    /// Forgets the distance to the left end: the head moved left by an unknown amount.
    pub fn reset_left(&mut self)
        ensures
            final(self).current() == (Slack { left: 0, ..old(self).current() }),
            final(self).saved() == old(self).saved(),
            forall|h: int, h2: int, cap: int|
                #![auto]
                old(self).current().holds(h, cap) && 0 <= h2 <= h ==> final(self).current().holds(
                    h2,
                    cap,
                ),
    {
        self.current = Slack { left: 0, ..self.current };
    }

    /// Enters a loop with this body: forgets each side toward which the body
    /// may move, and saves the result for the loop's exit.
    pub fn enter_loop(&mut self, body: &Vec<Statement>)
        ensures
            final(self).current() == loop_entry(old(self).current(), body@),
            final(self).saved() == old(self).saved().push(final(self).current()),
            forall|h: int, cap: int|
                #![auto]
                old(self).current().holds(h, cap) ==> final(self).current().holds(h, cap),
    {
        let ml = body_moves(body, true);
        let mr = body_moves(body, false);
        let s = self.current;
        let e = Slack { left: if ml { 0 } else { s.left }, right: if mr { 0 } else { s.right } };
        self.current = e;
        self.saved.push(e);
    }

    /// Leaves the innermost loop: the knowledge is that saved at its entry.
    pub fn leave_loop(&mut self)
        requires
            old(self).saved().len() > 0,
        ensures
            final(self).current() == old(self).saved().last(),
            final(self).saved() == old(self).saved().drop_last(),
    {
        let s = self.saved.pop().unwrap();
        self.current = s;
    }
}

/// The analysis used when no runtime checks are emitted: it proves nothing.
pub struct NoAnalysis;

impl NoAnalysis {
    pub fn move_right(&mut self, n: Count) -> (r: bool)
        ensures
            !r,
    {
        false
    }

    pub fn move_left(&mut self, n: Count) -> (r: bool)
        ensures
            !r,
    {
        false
    }

    pub fn check_right(&self, k: Count) -> (r: bool)
        ensures
            !r,
    {
        false
    }

    pub fn check_left(&self, k: Count) -> (r: bool)
        ensures
            !r,
    {
        false
    }
}

/// Whether the statements may move the head left (`left`) or right.
pub fn body_moves(s: &Vec<Statement>, left: bool) -> (r: bool)
    ensures
        r == if left { moves_left(s@) } else { moves_right(s@) },
    decreases s@,
{
    let mut i: usize = 0;
    let mut found = false;
    proof {
        assert(s@.subrange(0, 0) =~= Seq::<Statement>::empty());
    }
    while i < s.len()
        invariant
            0 <= i <= s@.len(),
            found == if left {
                moves_left(s@.subrange(0, i as int))
            } else {
                moves_right(s@.subrange(0, i as int))
            },
        decreases s@.len() - i,
    {
        let ghost q = s@.subrange(0, i + 1);
        proof {
            assert(q.subrange(0, i as int) =~= s@.subrange(0, i as int));
            assert(q[i as int] == s@[i as int]);
        }
        let here = match &s[i] {
            Statement::Instr(instruction) => if left {
                instruction.is_left() || instruction.is_find_zero_left()
            } else {
                instruction.is_right() || instruction.is_find_zero_right()
            },
            Statement::Loop(body) => {
                assert(decreases_to!(s@ => s@[i as int]));
                body_moves(body, left)
            },
        };
        assert(here == if left {
            stmt_moves_left(s@[i as int])
        } else {
            stmt_moves_right(s@[i as int])
        });
        found = found || here;
        i = i + 1;
    }
    assert(s@.subrange(0, i as int) =~= s@);
    found
}

} // verus!
