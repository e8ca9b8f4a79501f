//! Bookkeeping for the 256 registers of one function frame.

use vstd::prelude::*;
use crate::opcode::RegisterIndex;

verus! {

pub struct RegisterAllocator {
    /// Which registers are allocated.
    pub registers: [bool; 256],
    /// The lowest free register, or 256 when none is free.
    pub first_free: u16,
    /// The free register above the last used one.
    pub stack_top: u16,
    /// The largest value that `stack_top` has had.
    pub stack_size: u16,
}

impl RegisterAllocator {
    pub open spec fn allocated(&self, r: int) -> bool {
        0 <= r < 256 && self.registers@[r]
    }

    pub open spec fn wf(&self) -> bool {
        &&& self.first_free <= 256
        &&& self.stack_top <= self.stack_size <= 256
        &&& forall|i: int| 0 <= i < self.first_free ==> self.registers@[i]
        &&& self.first_free < 256 ==> !self.registers@[self.first_free as int]
        &&& forall|i: int| self.stack_top <= i < 256 ==> !self.registers@[i]
    }

    /// An allocated register lies below the top of the stack.
    pub proof fn lemma_allocated_below_top(&self, r: int)
        requires
            self.wf(),
            self.allocated(r),
        ensures
            r < self.stack_top,
    {
    }

    /// The lowest free register is never above the top of the stack.
    pub proof fn lemma_first_free_below_top(&self)
        requires
            self.wf(),
        ensures
            self.first_free <= self.stack_top,
    {
        if self.first_free > self.stack_top {
            assert(self.registers@[self.stack_top as int]);
        }
    }

    /// Whether `after` is this allocator with its lowest free register
    /// allocated.
    pub open spec fn allocates_to(self, after: RegisterAllocator) -> bool {
        &&& after.wf()
        &&& after.registers@ == self.registers@.update(self.first_free as int, true)
        &&& after.first_free > self.first_free
        &&& after.stack_top == if self.first_free == self.stack_top {
            self.stack_top + 1
        } else {
            self.stack_top as int
        }
        &&& after.stack_size == if after.stack_top > self.stack_size {
            after.stack_top
        } else {
            self.stack_size
        }
    }

    /// Whether `after` is this allocator with `register` freed.
    pub open spec fn frees_to(self, register: RegisterIndex, after: RegisterAllocator) -> bool {
        &&& after.wf()
        &&& after.registers@ == self.registers@.update(register.0 as int, false)
        &&& after.first_free == if register.0 < self.first_free {
            register.0 as u16
        } else {
            self.first_free
        }
        &&& after.stack_top == if register.0 + 1 == self.stack_top {
            self.stack_top - 1
        } else {
            self.stack_top as int
        }
        &&& after.stack_size == self.stack_size
    }

    /// Whether `after` is this allocator with `size` more registers
    /// allocated at the top of the stack.
    pub open spec fn pushes_to(self, size: u8, after: RegisterAllocator) -> bool {
        &&& after.wf()
        &&& forall|i: int|
            0 <= i < 256 ==> after.registers@[i] == (self.registers@[i] || (self.stack_top <= i
                < self.stack_top + size))
        &&& after.first_free == if self.first_free == self.stack_top {
            self.first_free + size
        } else {
            self.first_free as int
        }
        &&& after.stack_top == self.stack_top + size
        &&& after.stack_size == if after.stack_top > self.stack_size {
            after.stack_top
        } else {
            self.stack_size
        }
    }

    /// Whether `after` is this allocator with every register from `new_top`
    /// upwards freed, where the top of the stack is above `new_top`.
    pub open spec fn pops_to(self, new_top: u16, after: RegisterAllocator) -> bool {
        &&& after.wf()
        &&& forall|i: int|
            0 <= i < 256 ==> after.registers@[i] == (self.registers@[i] && i < new_top)
        &&& after.stack_top == new_top
        &&& after.first_free == if new_top < self.first_free {
            new_top
        } else {
            self.first_free
        }
        &&& after.stack_size == self.stack_size
    }

    /// An allocator with every register free.
    pub fn new() -> (r: RegisterAllocator)
        ensures
            r.wf(),
            r.first_free == 0,
            r.stack_top == 0,
            r.stack_size == 0,
            forall|i: int| 0 <= i < 256 ==> !r.registers@[i],
    {
        RegisterAllocator { registers: [false; 256], first_free: 0, stack_top: 0, stack_size: 0 }
    }

    /// Whether `register` is allocated.
    pub fn is_allocated(&self, register: RegisterIndex) -> (r: bool)
        ensures
            r == self.allocated(register.0 as int),
    {
        self.registers[register.0 as usize]
    }

    /// Allocates the lowest free register, if there is one.
    pub fn allocate(&mut self) -> (r: Option<RegisterIndex>)
        requires
            old(self).wf(),
        ensures
            final(self).wf(),
            old(self).first_free >= 256 ==> r.is_none() && *final(self) == *old(self),
            old(self).first_free < 256 ==> r == Some(RegisterIndex(old(self).first_free as u8))
                && old(self).allocates_to(*final(self)),
    {
        proof {
            self.lemma_first_free_below_top();
        }
        if self.first_free < 256 {
            let register: u8 = self.first_free as u8;
            self.registers[register as usize] = true;
            if self.first_free == self.stack_top {
                self.stack_top += 1;
            }
            if self.stack_top > self.stack_size {
                self.stack_size = self.stack_top;
            }
            let mut i: u16 = self.first_free + 1;
            while i < 256 && self.registers[i as usize]
                invariant
                    old(self).first_free < i <= 256,
                    self.stack_top <= self.stack_size <= 256,
                    old(self).first_free < self.stack_top,
                    self.stack_top == if old(self).first_free == old(self).stack_top {
                        old(self).stack_top + 1
                    } else {
                        old(self).stack_top as int
                    },
                    self.stack_size == if self.stack_top > old(self).stack_size {
                        self.stack_top
                    } else {
                        old(self).stack_size
                    },
                    forall|j: int| self.stack_top <= j < 256 ==> !self.registers@[j],
                    forall|j: int| 0 <= j < i ==> self.registers@[j],
                    self.registers@ == old(self).registers@.update(
                        old(self).first_free as int,
                        true,
                    ),
                decreases 256 - i,
            {
                i += 1;
            }
            self.first_free = i;
            Some(RegisterIndex(register))
        } else {
            None
        }
    }

    /// Frees one allocated register. The top of the stack moves down by one
    /// only when the register freed was the topmost.
    pub fn free(&mut self, register: RegisterIndex)
        requires
            old(self).wf(),
            old(self).allocated(register.0 as int),
        ensures
            old(self).frees_to(register, *final(self)),
    {
        self.registers[register.0 as usize] = false;
        if (register.0 as u16) < self.first_free {
            self.first_free = register.0 as u16;
        }
        if register.0 as u16 + 1 == self.stack_top {
            self.stack_top -= 1;
        }
    }

    /// Allocates `size` registers in one block that starts at the top of the
    /// stack, and returns the first of them. Fails when `size` is zero or the
    /// block does not fit below register 256.
    pub fn push(&mut self, size: u8) -> (r: Option<RegisterIndex>)
        requires
            old(self).wf(),
        ensures
            final(self).wf(),
            size == 0 || size > 256 - old(self).stack_top
                ==> r.is_none() && *final(self) == *old(self),
            0 < size <= 256 - old(self).stack_top ==> r == Some(
                RegisterIndex(old(self).stack_top as u8),
            ) && old(self).pushes_to(size, *final(self)),
    {
        proof {
            self.lemma_first_free_below_top();
        }
        if size == 0 {
            None
        } else if size as u16 <= 256 - self.stack_top {
            let rbegin: u16 = self.stack_top;
            let rend: u16 = rbegin + size as u16;
            let mut i: u16 = rbegin;
            while i < rend
                invariant
                    rbegin <= i <= rend <= 256,
                    rbegin == old(self).stack_top,
                    self.first_free == old(self).first_free,
                    self.stack_top == old(self).stack_top,
                    self.stack_size == old(self).stack_size,
                    forall|j: int|
                        0 <= j < 256 ==> self.registers@[j] == (old(self).registers@[j] || (rbegin
                            <= j < i)),
                decreases rend - i,
            {
                self.registers[i as usize] = true;
                i += 1;
            }
            if self.first_free == self.stack_top {
                self.first_free += size as u16;
            }
            self.stack_top += size as u16;
            if self.stack_top > self.stack_size {
                self.stack_size = self.stack_top;
            }
            Some(RegisterIndex(rbegin as u8))
        } else {
            None
        }
    }

    /// Frees every register from `new_top` upwards and makes `new_top` the top
    /// of the stack. Does nothing when the top is already at or below
    /// `new_top`.
    pub fn pop_to(&mut self, new_top: u16)
        requires
            old(self).wf(),
        ensures
            final(self).wf(),
            old(self).stack_top <= new_top ==> *final(self) == *old(self),
            old(self).stack_top > new_top ==> old(self).pops_to(new_top, *final(self)),
    {
        if self.stack_top > new_top {
            let top: u16 = self.stack_top;
            let mut i: u16 = new_top;
            while i < top
                invariant
                    new_top <= i <= top <= 256,
                    top == old(self).stack_top,
                    self.first_free == old(self).first_free,
                    self.stack_top == old(self).stack_top,
                    self.stack_size == old(self).stack_size,
                    forall|j: int|
                        0 <= j < 256 ==> self.registers@[j] == (old(self).registers@[j] && !(new_top
                            <= j < i)),
                decreases top - i,
            {
                self.registers[i as usize] = false;
                i += 1;
            }
            self.stack_top = new_top;
            if new_top < self.first_free {
                self.first_free = new_top;
            }
        }
    }
}

impl Default for RegisterAllocator {
    fn default() -> (r: RegisterAllocator)
        ensures
            r.wf(),
            r.first_free == 0,
            r.stack_top == 0,
            r.stack_size == 0,
            forall|i: int| 0 <= i < 256 ==> !r.registers@[i],
    {
        RegisterAllocator::new()
    }
}

} // verus!
