use vstd::prelude::*;

verus! {

/// The keys held down, each at most once, in the order they were pressed.
pub struct PressedKeys {
    keys: Vec<u32>,
}

impl View for PressedKeys {
    type V = Seq<u32>;

    closed spec fn view(&self) -> Seq<u32> {
        self.keys@
    }
}

impl PressedKeys {
    /// No key appears twice.
    pub open spec fn wf(&self) -> bool {
        self@.no_duplicates()
    }

    /// No key held.
    pub fn new() -> (r: Self)
        ensures
            r.wf(),
            r@ == Seq::<u32>::empty(),
    {
        PressedKeys { keys: Vec::new() }
    }

    /// Whether `key` is held.
    pub fn contains(&self, key: u32) -> (r: bool)
        ensures
            r == self@.contains(key),
    {
        let mut i: usize = 0;
        while i < self.keys.len()
            invariant
                i <= self.keys@.len(),
                forall|j: int| 0 <= j < i ==> self.keys@[j] != key,
            decreases self.keys@.len() - i,
        {
            if self.keys[i] == key {
                return true;
            }
            i = i + 1;
        }
        false
    }

    /// Records that `key` went down; a key already held is not added again.
    pub fn press(&mut self, key: u32)
        requires
            old(self).wf(),
        ensures
            final(self).wf(),
            old(self)@.contains(key) ==> final(self)@ == old(self)@,
            !old(self)@.contains(key) ==> final(self)@ == old(self)@.push(key),
    {
        if !self.contains(key) {
            self.keys.push(key);
            proof {
                assert forall|i: int, j: int|
                    0 <= i < self@.len() && 0 <= j < self@.len() && i != j implies self@[i]
                    != self@[j] by {
                    if j == self@.len() - 1 {
                        assert(old(self)@.contains(self@[i]) || i == j);
                    } else if i == self@.len() - 1 {
                        assert(old(self)@.contains(self@[j]));
                    }
                }
            }
        }
    }

    /// Records that `key` went up; the other keys keep their order.
    pub fn release(&mut self, key: u32)
        requires
            old(self).wf(),
        ensures
            final(self).wf(),
            !final(self)@.contains(key),
            !old(self)@.contains(key) ==> final(self)@ == old(self)@,
            old(self)@.contains(key) ==> exists|i: int|
                0 <= i < old(self)@.len() && old(self)@[i] == key && final(self)@ == old(
                    self,
                )@.remove(i),
    {
        let mut i: usize = 0;
        while i < self.keys.len()
            invariant
                self.keys@ == old(self).keys@,
                self.keys@.no_duplicates(),
                i <= self.keys@.len(),
                forall|j: int| 0 <= j < i ==> self.keys@[j] != key,
            decreases self.keys@.len() - i,
        {
            if self.keys[i] == key {
                let ghost before = self@;
                self.keys.remove(i);
                proof {
                    assert(self@ =~= before.remove(i as int));
                    assert forall|a: int, b: int|
                        0 <= a < self@.len() && 0 <= b < self@.len() && a != b implies self@[a]
                        != self@[b] by {
                        let a2 = if a < i { a } else { a + 1 };
                        let b2 = if b < i { b } else { b + 1 };
                        assert(self@[a] == before[a2]);
                        assert(self@[b] == before[b2]);
                        assert(before.no_duplicates());
                        assert(before[a2] != before[b2]);
                    }
                    assert forall|a: int| 0 <= a < self@.len() implies self@[a] != key by {
                        let a2 = if a < i { a } else { a + 1 };
                        assert(self@[a] == before[a2]);
                        assert(before.no_duplicates());
                        assert(before[a2] != before[i as int]);
                    }
                }
                return;
            }
            i = i + 1;
        }
    }

    /// The held keys, in the order they were pressed.
    pub fn snapshot(&self) -> (r: Vec<u32>)
        ensures
            r@ == self@,
    {
        self.keys.clone()
    }
}

/// A value that one side adds to and the other side drains: draining hands
/// out what was accumulated and leaves the zero value behind.
pub struct Accumulator<S> {
    value: S,
    zero: S,
}

impl<S> View for Accumulator<S> {
    type V = (S, S);

    /// The accumulated value and the zero value.
    closed spec fn view(&self) -> (S, S) {
        (self.value, self.zero)
    }
}

/// What draining an accumulator with value `a` hands out, and its value after.
pub open spec fn drained<S>(a: (S, S)) -> (S, (S, S)) {
    (a.0, (a.1, a.1))
}

/// Draining twice in a row hands out the accumulated value once, then the
/// zero value.
pub proof fn lemma_drain_twice<S>(a: (S, S))
    ensures
        drained(a).0 == a.0,
        drained(drained(a).1).0 == a.1,
        drained(drained(a).1).1 == drained(a).1,
{
}

impl<S: Copy> Accumulator<S> {
    /// An accumulator that holds `zero`.
    pub fn new(zero: S) -> (r: Self)
        ensures
            r@ == (zero, zero),
    {
        Accumulator { value: zero, zero }
    }

    /// The accumulated value.
    pub fn value(&self) -> (r: S)
        ensures
            r == self@.0,
    {
        self.value
    }

    /// Replaces the accumulated value (the caller adds to what `value`
    /// returned).
    pub fn set(&mut self, value: S)
        ensures
            final(self)@ == (value, old(self)@.1),
    {
        self.value = value;
    }

    /// Hands out the accumulated value and resets it to zero.
    pub fn drain(&mut self) -> (r: S)
        ensures
            (r, final(self)@) == drained(old(self)@),
    {
        let r = self.value;
        self.value = self.zero;
        r
    }
}

/// The window size as last reported, and whether the consumer has yet to see
/// it.
#[derive(Clone, Copy, Debug, PartialEq, Eq, Structural)]
pub struct WindowSize {
    pub width: u32,
    pub height: u32,
    pub resized: bool,
}

impl WindowSize {
    /// The initial size, already seen.
    pub fn new(width: u32, height: u32) -> (r: Self)
        ensures
            r == (WindowSize { width, height, resized: false }),
    {
        WindowSize { width, height, resized: false }
    }

    /// Producer side: the window now has this size.
    pub fn resize(&mut self, width: u32, height: u32)
        ensures
            *final(self) == (WindowSize { width, height, resized: true }),
    {
        self.width = width;
        self.height = height;
        self.resized = true;
    }

    /// Consumer side: the new size if it has not been seen yet; the flag is
    /// cleared.
    pub fn take_resize(&mut self) -> (r: Option<(u32, u32)>)
        ensures
            old(self).resized ==> r == Some((old(self).width, old(self).height)),
            !old(self).resized ==> r == None::<(u32, u32)>,
            *final(self) == (WindowSize { resized: false, ..*old(self) }),
    {
        if self.resized {
            self.resized = false;
            Some((self.width, self.height))
        } else {
            None
        }
    }
}

} // verus!
