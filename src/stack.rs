pub mod stack_errors;
pub mod stack_operations;

use vstd::prelude::*;

use crate::errors::Error;
use stack_errors::StackError;

verus! {

/// Capacity in bytes of a stack built without an explicit one.
pub const DEFAULT_CAPACITY: usize = 128;

/// Bytes taken by one element.
pub const ELEMENT_SIZE: usize = 2;

/// The failure reported when the stack has too few elements.
pub open spec fn underflow() -> Error {
    Error::StackError(StackError::Underflow)
}

/// The failure reported when the stack would grow past its capacity.
pub open spec fn overflow() -> Error {
    Error::StackError(StackError::Overflow)
}

/// Number of elements that fit in a stack configured with `bytes`.
pub open spec fn element_capacity(bytes: Option<usize>) -> nat {
    (match bytes {
        Some(b) => b,
        None => DEFAULT_CAPACITY,
    }) as nat / ELEMENT_SIZE as nat
}

/// `s` with `v` on top, or `Overflow` when `s` already holds `cap` elements.
pub open spec fn push_result(s: Seq<i16>, cap: nat, v: i16) -> Result<Seq<i16>, Error> {
    if s.len() < cap {
        Ok(s.push(v))
    } else {
        Err(overflow())
    }
}

/// `s` without its top element, or `Underflow` when `s` is empty.
pub open spec fn drop_result(s: Seq<i16>) -> Result<Seq<i16>, Error> {
    if s.len() == 0 {
        Err(underflow())
    } else {
        Ok(s.drop_last())
    }
}

/// A copy of the top element pushed on `s`.
pub open spec fn dup_result(s: Seq<i16>, cap: nat) -> Result<Seq<i16>, Error> {
    if s.len() >= cap {
        Err(overflow())
    } else if s.len() == 0 {
        Err(underflow())
    } else {
        Ok(s.push(s.last()))
    }
}

/// `s` with its two top elements exchanged.
pub open spec fn swap_result(s: Seq<i16>) -> Result<Seq<i16>, Error> {
    let n = s.len() as int;
    if n < 2 {
        Err(underflow())
    } else {
        Ok(s.subrange(0, n - 2).push(s[n - 1]).push(s[n - 2]))
    }
}

/// A copy of the second element from the top pushed on `s`.
pub open spec fn over_result(s: Seq<i16>, cap: nat) -> Result<Seq<i16>, Error> {
    let n = s.len() as int;
    if n < 2 {
        Err(underflow())
    } else if n >= cap {
        Err(overflow())
    } else {
        Ok(s.push(s[n - 2]))
    }
}

/// `a b c` on top of `s` turned into `b c a`.
pub open spec fn rot_result(s: Seq<i16>) -> Result<Seq<i16>, Error> {
    let n = s.len() as int;
    if n < 3 {
        Err(underflow())
    } else {
        Ok(s.subrange(0, n - 3).push(s[n - 2]).push(s[n - 1]).push(s[n - 3]))
    }
}

/// What a call returning `r` did to a stack that went from `before` to `after`,
/// given the outcome `expected` that the operation's rule prescribes: on
/// success the new contents, on failure the error with the stack untouched.
pub open spec fn applied(
    r: Result<(), Error>,
    before: Seq<i16>,
    after: Seq<i16>,
    expected: Result<Seq<i16>, Error>,
) -> bool {
    match expected {
        Ok(s) => r is Ok && after == s,
        Err(e) => r == Err::<(), Error>(e) && after == before,
    }
}

/// The stack that a run of pushes (`Some(v)`) and drops (`None`) leaves on
/// `s` when failed calls are part of the run and change nothing, with the
/// numbers of pushes and of drops that succeeded.
pub open spec fn push_drop_outcome(s: Seq<i16>, cap: nat, ops: Seq<Option<i16>>) -> (
    Seq<i16>,
    nat,
    nat,
)
    decreases ops.len(),
{
    if ops.len() == 0 {
        (s, 0, 0)
    } else {
        let (t, pushes, drops) = push_drop_outcome(s, cap, ops.drop_last());
        match ops.last() {
            Some(v) => match push_result(t, cap, v) {
                Ok(u) => (u, pushes + 1, drops),
                Err(_) => (t, pushes, drops),
            },
            None => match drop_result(t) {
                Ok(u) => (u, pushes, drops + 1),
                Err(_) => (t, pushes, drops),
            },
        }
    }
}

/// Whatever calls fail along the way, the size equals the number of pushes
/// that succeeded less the number of drops that succeeded, counted from the
/// starting size.
pub proof fn lemma_size_counts_successful_calls(s: Seq<i16>, cap: nat, ops: Seq<Option<i16>>)
    ensures
        push_drop_outcome(s, cap, ops).0.len() + push_drop_outcome(s, cap, ops).2 == s.len()
            + push_drop_outcome(s, cap, ops).1,
    decreases ops.len(),
{
    if ops.len() > 0 {
        lemma_size_counts_successful_calls(s, cap, ops.drop_last());
    }
}

/// A push followed by a drop hands back the pushed value and restores the
/// stack.
pub proof fn lemma_push_then_drop(s: Seq<i16>, cap: nat, v: i16)
    requires
        push_result(s, cap, v) is Ok,
    ensures
        push_result(s, cap, v)->Ok_0.last() == v,
        drop_result(push_result(s, cap, v)->Ok_0) == Ok::<Seq<i16>, Error>(s),
{
    assert(s.push(v).drop_last() =~= s);
}

/// On a stack that is neither empty nor full, `dup` adds one element equal
/// to the old top.
pub proof fn lemma_dup_copies_top(s: Seq<i16>, cap: nat)
    requires
        1 <= s.len() < cap,
    ensures
        dup_result(s, cap) matches Ok(t) && t.len() == s.len() + 1 && t.last() == s.last(),
{
}

/// `swap` twice gives back the stack it started from.
pub proof fn lemma_swap_twice(s: Seq<i16>)
    requires
        s.len() >= 2,
    ensures
        swap_result(s) matches Ok(t) && swap_result(t) == Ok::<Seq<i16>, Error>(s),
{
    let n = s.len() as int;
    let t = s.subrange(0, n - 2).push(s[n - 1]).push(s[n - 2]);
    assert(t.subrange(0, n - 2) =~= s.subrange(0, n - 2));
    assert(t.subrange(0, n - 2).push(t[n - 1]).push(t[n - 2]) =~= s);
}

/// `rot` three times gives back the stack it started from.
pub proof fn lemma_rot_thrice(s: Seq<i16>)
    requires
        s.len() >= 3,
    ensures
        rot_result(s) matches Ok(t1) && rot_result(t1) matches Ok(t2) && rot_result(t2)
            == Ok::<Seq<i16>, Error>(s),
{
    let n = s.len() as int;
    let base = s.subrange(0, n - 3);
    let t1 = base.push(s[n - 2]).push(s[n - 1]).push(s[n - 3]);
    assert(t1.subrange(0, n - 3) =~= base);
    let t2 = base.push(s[n - 1]).push(s[n - 3]).push(s[n - 2]);
    assert(t1.subrange(0, n - 3).push(t1[n - 2]).push(t1[n - 1]).push(t1[n - 3]) =~= t2);
    assert(t2.subrange(0, n - 3) =~= base);
    assert(t2.subrange(0, n - 3).push(t2[n - 2]).push(t2[n - 1]).push(t2[n - 3]) =~= s);
}

/// A LIFO of 16-bit values with a fixed capacity. Its view lists the elements
/// from the bottom to the top.
#[derive(Debug)]
pub struct Stack {
    capacity: usize,
    size: usize,
    data: Vec<i16>,
}

impl View for Stack {
    type V = Seq<i16>;

    closed spec fn view(&self) -> Seq<i16> {
        self.data@
    }
}

impl Stack {
    /// Most elements the stack can hold.
    pub closed spec fn cap(&self) -> nat {
        self.capacity as nat
    }

    /// The recorded size matches the contents and stays within the capacity.
    pub closed spec fn wf(&self) -> bool {
        &&& self.size == self.data@.len()
        &&& self.size <= self.capacity
    }

    /// A well-formed stack holds at most `cap()` elements.
    pub proof fn lemma_bounded(&self)
        requires
            self.wf(),
        ensures
            self@.len() <= self.cap(),
    {
    }

    /// An empty stack; `capacity` is in bytes and two of them hold one element.
    pub fn new(capacity: Option<usize>) -> (r: Self)
        ensures
            r.wf(),
            r@ == Seq::<i16>::empty(),
            r.cap() == element_capacity(capacity),
    {
        let bytes = match capacity {
            Some(b) => b,
            None => DEFAULT_CAPACITY,
        };
        Stack { capacity: bytes / ELEMENT_SIZE, size: 0, data: Vec::new() }
    }

    pub fn size(&self) -> (r: usize)
        requires
            self.wf(),
        ensures
            r == self@.len(),
    {
        self.size
    }

    pub fn capacity(&self) -> (r: usize)
        requires
            self.wf(),
        ensures
            r == self.cap(),
    {
        self.capacity
    }

    pub fn is_empty(&self) -> (r: bool)
        requires
            self.wf(),
        ensures
            r == (self@.len() == 0),
    {
        self.size == 0
    }

    /// Puts `element` on top; fails with `Overflow` when the stack is full.
    pub fn push(&mut self, element: i16) -> (r: Result<(), Error>)
        requires
            old(self).wf(),
        ensures
            final(self).wf(),
            final(self).cap() == old(self).cap(),
            applied(r, old(self)@, final(self)@, push_result(old(self)@, old(self).cap(), element)),
    {
        if self.size >= self.capacity {
            return Err(Error::StackError(StackError::Overflow));
        }
        self.data.push(element);
        self.size = self.size + 1;
        Ok(())
    }

    /// Removes and returns the top element; fails with `Underflow` when empty.
    pub fn drop(&mut self) -> (r: Result<i16, Error>)
        requires
            old(self).wf(),
        ensures
            final(self).wf(),
            final(self).cap() == old(self).cap(),
            old(self)@.len() == 0 ==> r == Err::<i16, Error>(underflow()) && final(self)@
                == old(self)@,
            old(self)@.len() > 0 ==> r == Ok::<i16, Error>(old(self)@.last()) && final(self)@
                == old(self)@.drop_last(),
    {
        if self.size == 0 {
            return Err(Error::StackError(StackError::Underflow));
        }
        match self.data.pop() {
            Some(v) => {
                self.size = self.size - 1;
                Ok(v)
            },
            None => Err(Error::StackError(StackError::Underflow)),
        }
    }

    /// The top element, left in place; fails with `Underflow` when empty.
    pub fn top(&self) -> (r: Result<&i16, Error>)
        requires
            self.wf(),
        ensures
            self@.len() == 0 ==> r == Err::<&i16, Error>(underflow()),
            self@.len() > 0 ==> (r matches Ok(v) && *v == self@.last()),
    {
        match self.data.last() {
            Some(last) => Ok(last),
            None => Err(Error::StackError(StackError::Underflow)),
        }
    }

    /// Pushes a copy of the top element.
    pub fn dup(&mut self) -> (r: Result<(), Error>)
        requires
            old(self).wf(),
        ensures
            final(self).wf(),
            final(self).cap() == old(self).cap(),
            applied(r, old(self)@, final(self)@, dup_result(old(self)@, old(self).cap())),
    {
        if self.size >= self.capacity {
            return Err(Error::StackError(StackError::Overflow));
        }
        if self.size == 0 {
            return Err(Error::StackError(StackError::Underflow));
        }
        let top = self.data[self.size - 1];
        self.push(top)
    }

    /// Exchanges the two top elements.
    pub fn swap(&mut self) -> (r: Result<(), Error>)
        requires
            old(self).wf(),
        ensures
            final(self).wf(),
            final(self).cap() == old(self).cap(),
            applied(r, old(self)@, final(self)@, swap_result(old(self)@)),
    {
        if self.size < 2 {
            return Err(Error::StackError(StackError::Underflow));
        }
        let n = self.size;
        let last = self.data[n - 1];
        let before_last = self.data[n - 2];
        self.data.set(n - 2, last);
        self.data.set(n - 1, before_last);
        proof {
            assert(self.data@ =~= old(self)@.subrange(0, n - 2).push(last).push(before_last));
        }
        Ok(())
    }

    /// Pushes a copy of the second element from the top.
    pub fn over(&mut self) -> (r: Result<(), Error>)
        requires
            old(self).wf(),
        ensures
            final(self).wf(),
            final(self).cap() == old(self).cap(),
            applied(r, old(self)@, final(self)@, over_result(old(self)@, old(self).cap())),
    {
        if self.size < 2 {
            return Err(Error::StackError(StackError::Underflow));
        } else if self.size >= self.capacity {
            return Err(Error::StackError(StackError::Overflow));
        }
        let before_last = self.data[self.size - 2];
        self.push(before_last)
    }

    /// Turns `a b c` on top of the stack into `b c a`.
    pub fn rot(&mut self) -> (r: Result<(), Error>)
        requires
            old(self).wf(),
        ensures
            final(self).wf(),
            final(self).cap() == old(self).cap(),
            applied(r, old(self)@, final(self)@, rot_result(old(self)@)),
    {
        if self.size < 3 {
            return Err(Error::StackError(StackError::Underflow));
        }
        let n = self.size;
        let a = self.data[n - 3];
        let b = self.data[n - 2];
        let c = self.data[n - 1];
        self.data.set(n - 3, b);
        self.data.set(n - 2, c);
        self.data.set(n - 1, a);
        proof {
            assert(self.data@ =~= old(self)@.subrange(0, n - 3).push(b).push(c).push(a));
        }
        Ok(())
    }

    /// The elements from the bottom to the top.
    pub fn get_stack_content(&self) -> (r: &Vec<i16>)
        requires
            self.wf(),
        ensures
            r@ == self@,
    {
        &self.data
    }
}

} // verus!
