use vstd::prelude::*;

verus! {

/// Hands out the row indices `0..end` one at a time, in increasing order,
/// each exactly once; after the last one it reports that it is closed.
pub struct TaskQueue {
    next: usize,
    end: usize,
}

impl TaskQueue {
    #[verifier::type_invariant]
    spec fn inv(&self) -> bool {
        self.next <= self.end
    }

    /// The next index to hand out.
    pub closed spec fn spec_next(&self) -> nat {
        self.next as nat
    }

    /// One past the last index.
    pub closed spec fn spec_end(&self) -> nat {
        self.end as nat
    }

    /// A queue of the indices `0..n`.
    pub fn new(n: usize) -> (r: Self)
        ensures
            r.spec_next() == 0,
            r.spec_end() == n,
    {
        TaskQueue { next: 0, end: n }
    }

    /// Takes the next index, or `None` once every index has been handed out.
    pub fn claim(&mut self) -> (r: Option<usize>)
        ensures
            final(self).spec_end() == old(self).spec_end(),
            old(self).spec_next() < old(self).spec_end() ==> r == Some(old(self).spec_next() as usize)
                && final(self).spec_next() == old(self).spec_next() + 1,
            old(self).spec_next() >= old(self).spec_end() ==> r is None && final(self).spec_next()
                == old(self).spec_next(),
    {
        proof {
            use_type_invariant(&*self);
        }
        if self.next < self.end {
            let i = self.next;
            self.next = i + 1;
            Some(i)
        } else {
            None
        }
    }

    /// How many indices are still to be handed out.
    pub fn remaining(&self) -> (r: usize)
        ensures
            r == self.spec_end() - self.spec_next(),
    {
        proof {
            use_type_invariant(self);
        }
        self.end - self.next
    }
}

/// Why a result was not stored.
#[derive(Debug, Clone, Copy, PartialEq, Eq, Structural)]
pub enum StoreError {
    /// There is no slot with that index.
    OutOfRange,
    /// The slot already holds a result.
    AlreadyWritten,
}

/// The slots after storing `v` at `i`: a slot is written only if it exists
/// and is still empty.
pub open spec fn stored<T>(slots: Seq<Option<T>>, i: usize, v: T) -> Seq<Option<T>> {
    if i < slots.len() && slots[i as int] is None {
        slots.update(i as int, Some(v))
    } else {
        slots
    }
}

/// The slots after the rows of `order` are finished one after another, row
/// `i` with result `f(i)`.
pub open spec fn stored_in_order<T>(slots: Seq<Option<T>>, order: Seq<usize>, f: spec_fn(usize) -> T) -> Seq<Option<T>>
    decreases order.len(),
{
    if order.len() == 0 {
        slots
    } else {
        stored(stored_in_order(slots, order.drop_last(), f), order.last(), f(order.last()))
    }
}

/// `n` empty slots.
pub open spec fn empty_slots<T>(n: nat) -> Seq<Option<T>> {
    Seq::new(n, |i: int| None)
}

/// The rows `0..n` in increasing order.
pub open spec fn in_sequence(n: nat) -> Seq<usize> {
    Seq::new(n, |i: int| i as usize)
}

/// Whether `order` lists every row of `0..n` exactly once.
pub open spec fn is_schedule(order: Seq<usize>, n: nat) -> bool {
    &&& order.no_duplicates()
    &&& forall|k: int| 0 <= k < order.len() ==> order[k] < n
    &&& forall|i: usize| i < n ==> order.contains(i)
}

proof fn lemma_stored_prefix<T>(n: nat, order: Seq<usize>, f: spec_fn(usize) -> T)
    requires
        n <= usize::MAX,
        order.no_duplicates(),
        forall|k: int| 0 <= k < order.len() ==> order[k] < n,
    ensures
        stored_in_order(empty_slots::<T>(n), order, f) == Seq::new(
            n,
            |i: int|
                if order.contains(i as usize) {
                    Some(f(i as usize))
                } else {
                    None
                },
        ),
    decreases order.len(),
{
    let goal = Seq::new(
        n,
        |i: int|
            if order.contains(i as usize) {
                Some(f(i as usize))
            } else {
                None
            },
    );
    if order.len() == 0 {
        assert(stored_in_order(empty_slots::<T>(n), order, f) =~= goal);
    } else {
        let init = order.drop_last();
        let last = order.last();
        assert forall|a: int, b: int| 0 <= a < b < init.len() implies init[a] != init[b] by {
            assert(order[a] != order[b]);
        }
        lemma_stored_prefix(n, init, f);
        let before = stored_in_order(empty_slots::<T>(n), init, f);
        assert(!init.contains(last)) by {
            if init.contains(last) {
                let k = choose|k: int| 0 <= k < init.len() && init[k] == last;
                assert(order[k] == order[order.len() - 1]);
            }
        }
        assert forall|i: int| 0 <= i < n implies (#[trigger] order.contains(i as usize) <==> init.contains(
            i as usize,
        ) || i as usize == last) by {
            if order.contains(i as usize) {
                let k = choose|k: int| 0 <= k < order.len() && order[k] == i as usize;
                if k < init.len() {
                    assert(init[k] == i as usize);
                }
            }
            if init.contains(i as usize) {
                let k = choose|k: int| 0 <= k < init.len() && init[k] == i as usize;
                assert(order[k] == i as usize);
            }
            if i as usize == last {
                assert(order[order.len() - 1] == last);
            }
        }
        assert(before[last as int] is None);
        let after = stored_in_order(empty_slots::<T>(n), order, f);
        assert(after == before.update(last as int, Some(f(last))));
        assert forall|i: int| 0 <= i < n implies after[i] == goal[i] by {
            if i != last as int {
                assert(order.contains(i as usize) <==> init.contains(i as usize));
            }
        }
        assert(after =~= goal);
    }
}

/// Whatever order the rows are finished in, once every row of `0..n` has
/// been stored exactly once the slots hold exactly what finishing them one
/// after another in increasing order gives: result `f(i)` in slot `i`.
pub proof fn lemma_completion_order_irrelevant<T>(n: nat, order: Seq<usize>, f: spec_fn(usize) -> T)
    requires
        n <= usize::MAX,
        is_schedule(order, n),
    ensures
        stored_in_order(empty_slots::<T>(n), order, f) == stored_in_order(
            empty_slots::<T>(n),
            in_sequence(n),
            f,
        ),
        stored_in_order(empty_slots::<T>(n), order, f) == Seq::new(n, |i: int| Some(f(i as usize))),
{
    let seq = in_sequence(n);
    assert forall|a: int, b: int| 0 <= a < b < seq.len() implies seq[a] != seq[b] by {}
    assert forall|i: usize| i < n implies seq.contains(i) by {
        assert(seq[i as int] == i);
    }
    lemma_stored_prefix(n, order, f);
    lemma_stored_prefix(n, seq, f);
    assert(stored_in_order(empty_slots::<T>(n), order, f) =~= Seq::new(n, |i: int| Some(f(i as usize))));
    assert(stored_in_order(empty_slots::<T>(n), seq, f) =~= Seq::new(n, |i: int| Some(f(i as usize))));
}

/// One slot per row for its result; each slot is written at most once.
pub struct ResultBuffer<T> {
    slots: Vec<Option<T>>,
}

impl<T: Copy> ResultBuffer<T> {
    /// The slots, empty or holding a result.
    pub closed spec fn view(&self) -> Seq<Option<T>> {
        self.slots@
    }

    /// `n` empty slots.
    pub fn new(n: usize) -> (r: Self)
        ensures
            r@ == empty_slots::<T>(n as nat),
    {
        let mut slots: Vec<Option<T>> = Vec::new();
        let mut i: usize = 0;
        while i < n
            invariant
                i <= n,
                slots@ == empty_slots::<T>(i as nat),
            decreases n - i,
        {
            slots.push(None);
            i += 1;
            assert(slots@ =~= empty_slots::<T>(i as nat));
        }
        ResultBuffer { slots }
    }

    /// The number of slots.
    pub fn len(&self) -> (r: usize)
        ensures
            r == self@.len(),
    {
        self.slots.len()
    }

    /// Stores the result of row `i`; refuses a slot that does not exist or
    /// already holds a result, and then changes nothing.
    pub fn store(&mut self, i: usize, v: T) -> (r: Result<(), StoreError>)
        ensures
            final(self)@ == stored(old(self)@, i, v),
            i >= old(self)@.len() ==> r == Err::<(), StoreError>(StoreError::OutOfRange),
            i < old(self)@.len() && old(self)@[i as int] is Some ==> r == Err::<(), StoreError>(
                StoreError::AlreadyWritten,
            ),
            i < old(self)@.len() && old(self)@[i as int] is None ==> r is Ok,
    {
        if i >= self.slots.len() {
            return Err(StoreError::OutOfRange);
        }
        if self.slots[i].is_some() {
            return Err(StoreError::AlreadyWritten);
        }
        self.slots.set(i, Some(v));
        Ok(())
    }

    /// Whether every slot holds a result.
    pub fn is_complete(&self) -> (r: bool)
        ensures
            r <==> forall|k: int| 0 <= k < self@.len() ==> self@[k] is Some,
    {
        let n = self.slots.len();
        let mut k: usize = 0;
        while k < n
            invariant
                n == self@.len(),
                k <= n,
                forall|m: int| 0 <= m < k ==> self@[m] is Some,
            decreases n - k,
        {
            if self.slots[k].is_none() {
                return false;
            }
            k += 1;
        }
        true
    }

    /// The results in slot order, once every slot holds one.
    pub fn into_values(self) -> (r: Option<Vec<T>>)
        ensures
            r is Some <==> forall|k: int| 0 <= k < self@.len() ==> self@[k] is Some,
            r matches Some(v) ==> v@.len() == self@.len() && forall|k: int|
                0 <= k < v@.len() ==> self@[k] == Some(#[trigger] v@[k]),
    {
        let n = self.slots.len();
        let mut out: Vec<T> = Vec::new();
        let mut k: usize = 0;
        while k < n
            invariant
                n == self@.len(),
                k <= n,
                out@.len() == k,
                forall|m: int| 0 <= m < k ==> self@[m] == Some(#[trigger] out@[m]),
            decreases n - k,
        {
            match self.slots[k] {
                Some(v) => out.push(v),
                None => {
                    return None;
                },
            }
            k += 1;
        }
        assert forall|m: int| 0 <= m < self@.len() implies self@[m] is Some by {
            assert(self@[m] == Some(out@[m]));
        }
        Some(out)
    }
}

} // verus!
