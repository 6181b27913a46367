//! The bounded stack of return addresses used by CALL and RET.
use vstd::prelude::*;

verus! {

/// Deepest nesting of subroutine calls the machine supports.
pub const STACK_DEPTH: usize = 16;

/// Why a stack operation was refused.
#[derive(Debug, Clone, Copy, PartialEq, Eq, Structural)]
pub enum StackError {
    /// A push onto a stack that already holds `STACK_DEPTH` addresses.
    Overflow,
    /// A pop from an empty stack.
    Underflow,
}

/// The stack after pushing `val` onto `s`, or why it cannot be pushed.
pub open spec fn pushed(s: Seq<u16>, val: u16) -> Result<Seq<u16>, StackError> {
    if s.len() < STACK_DEPTH {
        Ok(s.push(val))
    } else {
        Err(StackError::Overflow)
    }
}

/// The address popped from `s` and the stack left, or why nothing can be popped.
pub open spec fn popped(s: Seq<u16>) -> Result<(u16, Seq<u16>), StackError> {
    if s.len() > 0 {
        Ok((s.last(), s.drop_last()))
    } else {
        Err(StackError::Underflow)
    }
}

/// A push onto a stack of fewer than `STACK_DEPTH` addresses succeeds, and a pop
/// right after it gives back the address pushed and the stack as it was; a push
/// onto a full stack overflows and a pop from an empty one underflows.
pub proof fn lemma_lifo(s: Seq<u16>, val: u16)
    ensures
        s.len() < STACK_DEPTH ==> pushed(s, val) == Ok::<Seq<u16>, StackError>(s.push(val))
            && popped(s.push(val)) == Ok::<(u16, Seq<u16>), StackError>((val, s)),
        s.len() == STACK_DEPTH ==> pushed(s, val) == Err::<Seq<u16>, StackError>(StackError::Overflow),
        s.len() == 0 ==> popped(s) == Err::<(u16, Seq<u16>), StackError>(StackError::Underflow),
{
    assert(s.push(val).drop_last() =~= s);
}

/// A LIFO of at most `STACK_DEPTH` 16-bit return addresses.
pub struct ReturnStack {
    stack: [u16; 16],
    sp: u8,
}

impl View for ReturnStack {
    type V = Seq<u16>;

    /// The addresses held, oldest first; the last one is the top.
    closed spec fn view(&self) -> Seq<u16> {
        self.stack@.subrange(0, self.sp as int)
    }
}

impl ReturnStack {
    /// The stack pointer never passes the end of the storage.
    pub closed spec fn wf(&self) -> bool {
        self.sp <= STACK_DEPTH
    }

    pub fn new() -> (r: Self)
        ensures
            r.wf(),
            r@ == Seq::<u16>::empty(),
    {
        let r = ReturnStack { stack: [0u16; 16], sp: 0 };
        assert(r@ =~= Seq::<u16>::empty());
        r
    }

    /// Number of addresses held.
    pub fn depth(&self) -> (r: usize)
        requires
            self.wf(),
        ensures
            r == self@.len(),
    {
        self.sp as usize
    }

    /// Pushes `val`, unless `STACK_DEPTH` addresses are already held.
    pub fn push(&mut self, val: u16) -> (r: Result<(), StackError>)
        requires
            old(self).wf(),
        ensures
            final(self).wf(),
            match pushed(old(self)@, val) {
                Ok(t) => r is Ok && final(self)@ == t,
                Err(e) => r == Err::<(), StackError>(e) && final(self)@ == old(self)@,
            },
    {
        if self.sp as usize == STACK_DEPTH {
            return Err(StackError::Overflow);
        }
        let ghost before = self@;
        self.stack[self.sp as usize] = val;
        self.sp = self.sp + 1;
        assert(self@ =~= before.push(val));
        Ok(())
    }

    /// Removes and returns the most recently pushed address.
    pub fn pop(&mut self) -> (r: Result<u16, StackError>)
        requires
            old(self).wf(),
        ensures
            final(self).wf(),
            match popped(old(self)@) {
                Ok((a, t)) => r == Ok::<u16, StackError>(a) && final(self)@ == t,
                Err(e) => r == Err::<u16, StackError>(e) && final(self)@ == old(self)@,
            },
    {
        if self.sp == 0 {
            return Err(StackError::Underflow);
        }
        let ghost before = self@;
        self.sp = self.sp - 1;
        assert(self@ =~= before.drop_last());
        Ok(self.stack[self.sp as usize])
    }
}

} // verus!
