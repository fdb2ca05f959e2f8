//! The tape machine shared by every interpreter: a fixed-capacity byte tape,
//! its head, and the input and output byte streams.
use vstd::prelude::*;

use crate::common::{BfError, Count};

verus! {

/// The default tape capacity.
pub const DEFAULT_CAPACITY: usize = 30000;

/// The mathematical model of a running machine.
pub struct Machine {
    pub mem: Seq<u8>,
    pub ptr: int,
    pub input: Seq<u8>,
    pub pos: int,
    pub output: Seq<u8>,
}

impl Machine {
    pub open spec fn wf(self) -> bool {
        &&& 0 <= self.ptr < self.mem.len()
        &&& 0 <= self.pos <= self.input.len()
    }

    /// The byte under the head.
    pub open spec fn cell(self) -> u8 {
        self.mem[self.ptr]
    }

    pub open spec fn with_cell(self, v: u8) -> Machine {
        Machine { mem: self.mem.update(self.ptr, v), ..self }
    }

    pub open spec fn with_ptr(self, p: int) -> Machine {
        Machine { ptr: p, ..self }
    }

    /// Moves the head `n` cells to the left.
    pub open spec fn left(self, n: int) -> Result<Machine, BfError> {
        if n <= self.ptr {
            Ok(self.with_ptr(self.ptr - n))
        } else {
            Err(BfError::PointerUnderflow)
        }
    }

    /// Moves the head `n` cells to the right.
    pub open spec fn right(self, n: int) -> Result<Machine, BfError> {
        if self.ptr + n < self.mem.len() {
            Ok(self.with_ptr(self.ptr + n))
        } else {
            Err(BfError::PointerOverflow)
        }
    }

    /// Adds `d` to the current cell, modulo 256.
    pub open spec fn add(self, d: u8) -> Machine {
        self.with_cell(((self.cell() + d) % 256) as u8)
    }

    /// Reads one input byte into the current cell; at the end of input stores `0`.
    pub open spec fn read(self) -> Machine {
        if self.pos < self.input.len() {
            Machine { pos: self.pos + 1, ..self.with_cell(self.input[self.pos]) }
        } else {
            self.with_cell(0)
        }
    }

    /// Writes the current cell to the output.
    pub open spec fn write(self) -> Machine {
        Machine { output: self.output.push(self.cell()), ..self }
    }

    /// Adds the current cell to the cell `k` to the right and clears the
    /// current cell, when it is not zero.
    pub open spec fn offset_add_right(self, k: int) -> Result<Machine, BfError> {
        if self.cell() == 0 {
            Ok(self)
        } else if self.ptr + k < self.mem.len() {
            let v = self.cell();
            let z = self.with_cell(0);
            Ok(Machine {
                mem: z.mem.update(self.ptr + k, ((z.mem[self.ptr + k] + v) % 256) as u8),
                ..z
            })
        } else {
            Err(BfError::PointerOverflow)
        }
    }

    /// Adds the current cell to the cell `k` to the left and clears the
    /// current cell, when it is not zero.
    pub open spec fn offset_add_left(self, k: int) -> Result<Machine, BfError> {
        if self.cell() == 0 {
            Ok(self)
        } else if k <= self.ptr {
            let v = self.cell();
            let z = self.with_cell(0);
            Ok(Machine {
                mem: z.mem.update(self.ptr - k, ((z.mem[self.ptr - k] + v) % 256) as u8),
                ..z
            })
        } else {
            Err(BfError::PointerUnderflow)
        }
    }

    /// A fresh machine: `capacity` zero cells, the head on the first, no output.
    pub open spec fn fresh(capacity: nat, input: Seq<u8>) -> Machine {
        Machine { mem: Seq::new(capacity, |i: int| 0u8), ptr: 0, input, pos: 0, output: seq![] }
    }
}

/// The executable tape machine.
pub struct State {
    memory: Vec<u8>,
    pointer: usize,
    input: Vec<u8>,
    position: usize,
    output: Vec<u8>,
}

impl View for State {
    type V = Machine;

    closed spec fn view(&self) -> Machine {
        Machine {
            mem: self.memory@,
            ptr: self.pointer as int,
            input: self.input@,
            pos: self.position as int,
            output: self.output@,
        }
    }
}

impl State {
    pub open spec fn wf(&self) -> bool {
        self@.wf()
    }

    /// A machine with `capacity` zero cells that reads from `input`.
    pub fn new(capacity: usize, input: Vec<u8>) -> (r: State)
        requires
            capacity >= 1,
        ensures
            r.wf(),
            r@ == Machine::fresh(capacity as nat, input@),
    {
        let memory = vec![0u8; capacity];
        let r = State { memory, pointer: 0, input, position: 0, output: Vec::new() };
        assert(r@.mem =~= Machine::fresh(capacity as nat, input@).mem);
        r
    }

    /// The bytes written so far.
    pub fn output(&self) -> (r: &Vec<u8>)
        ensures
            r@ == self@.output,
    {
        &self.output
    }

    /// Consumes the machine and returns what it wrote.
    pub fn into_output(self) -> (r: Vec<u8>)
        ensures
            r@ == self@.output,
    {
        self.output
    }

    /// The tape capacity.
    pub fn capacity(&self) -> (r: usize)
        ensures
            r == self@.mem.len(),
    {
        self.memory.len()
    }

    /// The head position.
    pub fn pointer(&self) -> (r: usize)
        ensures
            r == self@.ptr,
    {
        self.pointer
    }

    /// The byte under the head.
    pub fn load(&self) -> (r: u8)
        requires
            self.wf(),
        ensures
            r == self@.cell(),
    {
        self.memory[self.pointer]
    }

    /// Stores `v` under the head.
    pub fn store(&mut self, v: u8)
        requires
            old(self).wf(),
        ensures
            final(self).wf(),
            final(self)@ == old(self)@.with_cell(v),
    {
        let p = self.pointer;
        self.memory.set(p, v);
    }

    /// Adds `d` to the current cell, wrapping.
    pub fn up(&mut self, d: u8)
        requires
            old(self).wf(),
        ensures
            final(self).wf(),
            final(self)@ == old(self)@.add(d),
    {
        let v = self.load();
        let s = (v as u16 + d as u16) % 256;
        self.store(s as u8);
    }

    /// Moves the head `n` cells left; the state is unchanged on error.
    pub fn left(&mut self, n: Count) -> (r: Result<(), BfError>)
        requires
            old(self).wf(),
        ensures
            final(self).wf(),
            match old(self)@.left(n as int) {
                Ok(m) => r is Ok && final(self)@ == m,
                Err(e) => r == Err::<(), BfError>(e) && final(self)@ == old(self)@,
            },
    {
        if n <= self.pointer {
            self.pointer = self.pointer - n;
            Ok(())
        } else {
            Err(BfError::PointerUnderflow)
        }
    }

    /// Moves the head `n` cells right; the state is unchanged on error.
    pub fn right(&mut self, n: Count) -> (r: Result<(), BfError>)
        requires
            old(self).wf(),
        ensures
            final(self).wf(),
            match old(self)@.right(n as int) {
                Ok(m) => r is Ok && final(self)@ == m,
                Err(e) => r == Err::<(), BfError>(e) && final(self)@ == old(self)@,
            },
    {
        if n < self.memory.len() - self.pointer {
            self.pointer = self.pointer + n;
            Ok(())
        } else {
            Err(BfError::PointerOverflow)
        }
    }

    /// Reads one input byte into the current cell; stores `0` at the end of input.
    pub fn read(&mut self)
        requires
            old(self).wf(),
        ensures
            final(self).wf(),
            final(self)@ == old(self)@.read(),
    {
        if self.position < self.input.len() {
            let b = self.input[self.position];
            self.store(b);
            self.position = self.position + 1;
        } else {
            self.store(0);
        }
    }

    /// Writes the current cell to the output.
    pub fn write(&mut self)
        requires
            old(self).wf(),
        ensures
            final(self).wf(),
            final(self)@ == old(self)@.write(),
    {
        let v = self.load();
        self.output.push(v);
    }

    /// Adds the current cell to the cell `k` to the right and clears it;
    /// the state is unchanged on error.
    pub fn offset_add_right(&mut self, k: Count) -> (r: Result<(), BfError>)
        requires
            old(self).wf(),
        ensures
            final(self).wf(),
            match old(self)@.offset_add_right(k as int) {
                Ok(m) => r is Ok && final(self)@ == m,
                Err(e) => r == Err::<(), BfError>(e) && final(self)@ == old(self)@,
            },
    {
        let v = self.load();
        if v == 0 {
            return Ok(());
        }
        if k < self.memory.len() - self.pointer {
            self.store(0);
            let t = self.pointer + k;
            let w = self.memory[t];
            let s = (w as u16 + v as u16) % 256;
            self.memory.set(t, s as u8);
            Ok(())
        } else {
            Err(BfError::PointerOverflow)
        }
    }

    /// Adds the current cell to the cell `k` to the left and clears it;
    /// the state is unchanged on error.
    pub fn offset_add_left(&mut self, k: Count) -> (r: Result<(), BfError>)
        requires
            old(self).wf(),
        ensures
            final(self).wf(),
            match old(self)@.offset_add_left(k as int) {
                Ok(m) => r is Ok && final(self)@ == m,
                Err(e) => r == Err::<(), BfError>(e) && final(self)@ == old(self)@,
            },
    {
        let v = self.load();
        if v == 0 {
            return Ok(());
        }
        if k <= self.pointer {
            self.store(0);
            let t = self.pointer - k;
            let w = self.memory[t];
            let s = (w as u16 + v as u16) % 256;
            self.memory.set(t, s as u8);
            Ok(())
        } else {
            Err(BfError::PointerUnderflow)
        }
    }
}

} // verus!
