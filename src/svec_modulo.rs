//! A fixed-capacity ring of values held inline: an array of `N` values and a
//! count of pushes, overwritten in circular order.
use vstd::prelude::*;
use crate::ring::{lemma_mod_back, lemma_mod_distinct, lemma_mod_step};

verus! {

/// An array of values overwritten in circular order. Values are added only by
/// [`StackVecModulo::push`]; the first push writes slot `1 % N`, so slot zero
/// stays as it was until the ring wraps around.
#[derive(Clone, Copy, Debug)]
pub struct StackVecModulo<T, const N: usize> {
    val: [T; N],
    /// Number of calls to `push`. The most recent value is in slot
    /// `num_push_calls % N`.
    num_push_calls: u64,
}

impl<T, const N: usize> StackVecModulo<T, N> {
    /// The values in their slots.
    pub closed spec fn values(&self) -> Seq<T> {
        self.val@
    }

    /// Number of pushes so far.
    pub closed spec fn pushes(&self) -> int {
        self.num_push_calls as int
    }

    /// A ring has `N` slots.
    pub proof fn lemma_values_len(&self)
        ensures
            self.values().len() == N,
    {
    }

    /// Two rings with the same slots and push count are the same ring.
    pub proof fn lemma_ext(a: Self, b: Self)
        requires
            a.values() == b.values(),
            a.pushes() == b.pushes(),
        ensures
            a == b,
    {
        broadcast use vstd::array::axiom_array_ext_equal;

        assert(a.val =~= b.val) by {
            assert forall|i: int| 0 <= i < N implies a.val[i] == b.val[i] by {
                assert(a.values()[i] == b.values()[i]);
            }
        }
    }

    /// Number of values held: the pushes so far, up to `N`.
    pub open spec fn spec_len(&self) -> int {
        if self.pushes() < N {
            self.pushes()
        } else {
            N as int
        }
    }

    /// The slot of the value pushed `age` pushes before the latest one.
    pub open spec fn slot_of_age(&self, age: int) -> int {
        (self.pushes() - age) % (N as int)
    }

    /// The value written last (slot zero before any push).
    pub open spec fn spec_most_recent(&self) -> T {
        self.values()[self.pushes() % (N as int)]
    }

    /// The values held, newest first.
    pub open spec fn newest_first(&self) -> Seq<T> {
        Seq::new(self.spec_len() as nat, |k: int| self.values()[self.slot_of_age(k)])
    }

    /// A ring holding `fill` in every slot, with no pushes.
    pub fn new(fill: T) -> (r: Self)
        where
            T: Copy,
        ensures
            r.values() == Seq::new(N as nat, |i: int| fill),
            r.pushes() == 0,
    {
        let r = StackVecModulo { val: [fill; N], num_push_calls: 0 };
        assert(r.values() =~= Seq::new(N as nat, |i: int| fill));
        r
    }

    /// A ring with the slots `val` after `num_push_calls` pushes.
    pub fn from_parts(val: [T; N], num_push_calls: u64) -> (r: Self)
        ensures
            r.values() == val@,
            r.pushes() == num_push_calls,
    {
        StackVecModulo { val, num_push_calls }
    }

    /// A copy of the slots.
    pub fn slots(&self) -> (r: [T; N])
        where
            T: Copy,
        ensures
            r@ == self.values(),
    {
        self.val
    }

    /// Number of values held, between zero and `N`.
    pub fn len(&self) -> (r: usize)
        ensures
            r == self.spec_len(),
    {
        if self.num_push_calls < N as u64 {
            self.num_push_calls as usize
        } else {
            N
        }
    }

    /// Writes `elem` into the slot after the most recent one and counts the
    /// push.
    pub fn push(&mut self, elem: T)
        requires
            N > 0,
            old(self).pushes() < u64::MAX,
        ensures
            final(self).pushes() == old(self).pushes() + 1,
            final(self).values() == old(self).values().update(
                (old(self).pushes() + 1) % (N as int),
                elem,
            ),
            final(self).spec_most_recent() == elem,
            final(self).newest_first() == seq![elem] + old(self).newest_first().take(
                final(self).spec_len() - 1,
            ),
    {
        let ghost before = *self;
        let slot = ((self.num_push_calls % N as u64 + 1) % N as u64) as usize;
        proof {
            vstd::arithmetic::div_mod::lemma_add_mod_noop_right(
                1,
                self.num_push_calls as int,
                N as int,
            );
        }
        self.val[slot] = elem;
        self.num_push_calls = self.num_push_calls + 1;
        proof {
            let after = *self;
            let expected = seq![elem] + before.newest_first().take(after.spec_len() - 1);
            assert forall|k: int| 0 <= k < after.spec_len() implies #[trigger] after.newest_first()[k]
                == expected[k] by {
                if k > 0 {
                    lemma_mod_step(before.pushes(), k - 1, N as int);
                    lemma_mod_distinct(before.pushes() + 1, k, N as int);
                    assert(after.slot_of_age(k) == before.slot_of_age(k - 1));
                }
            }
            assert(after.newest_first() =~= expected);
        }
    }

    /// Total number of calls to `push`.
    pub fn num_push_calls(&self) -> (r: u64)
        ensures
            r == self.pushes(),
    {
        self.num_push_calls
    }

    /// The slot written last; zero before any push.
    pub fn most_recent_index(&self) -> (r: usize)
        requires
            N > 0,
        ensures
            r == self.pushes() % (N as int),
    {
        (self.num_push_calls % N as u64) as usize
    }

    /// The value written last; before any push, the value in slot zero.
    pub fn most_recent_entry(&self) -> (r: &T)
        requires
            N > 0,
        ensures
            *r == self.spec_most_recent(),
    {
        &self.val[self.most_recent_index()]
    }

    /// The value in slot `index` modulo `N`.
    pub fn index(&self, index: usize) -> (r: &T)
        requires
            N > 0,
        ensures
            *r == self.values()[index as int % (N as int)],
    {
        &self.val[index % N]
    }
}

impl<T: Copy + Default, const N: usize> Default for StackVecModulo<T, N> {
    /// A ring holding `T::default()` in every slot, with no pushes.
    fn default() -> (r: Self)
        ensures
            r.pushes() == 0,
            forall|i: int| 0 <= i < N ==> call_ensures(T::default, (), #[trigger] r.values()[i]),
    {
        let fill = T::default();
        Self::new(fill)
    }
}

/// Walks a ring from the newest value to the oldest.
pub struct StackVecModuloIterator<'a, T, const N: usize> {
    val: &'a StackVecModulo<T, N>,
    counter: usize,
    index: usize,
}

impl<'a, T, const N: usize> StackVecModuloIterator<'a, T, N> {
    /// The ring walked.
    pub closed spec fn ring(&self) -> StackVecModulo<T, N> {
        *self.val
    }

    /// How many values were handed out so far.
    pub closed spec fn yielded(&self) -> int {
        self.counter as int
    }

    pub closed spec fn wf(&self) -> bool {
        &&& N > 0
        &&& self.counter <= self.val.spec_len()
        &&& self.index == self.val.slot_of_age(self.counter as int)
    }

    /// A well-formed walk has handed out between zero and `len()` values, of
    /// a ring with at least one slot.
    pub proof fn lemma_wf(&self)
        requires
            self.wf(),
        ensures
            N > 0,
            0 <= self.yielded() <= self.ring().spec_len(),
    {
    }

    /// Starts at the most recent value.
    pub fn from(value: &'a StackVecModulo<T, N>) -> (r: Self)
        requires
            N > 0,
        ensures
            r.wf(),
            r.ring() == *value,
            r.yielded() == 0,
    {
        StackVecModuloIterator { val: value, counter: 0, index: value.most_recent_index() }
    }

    /// The next older value, or `None` once all `len()` values were handed
    /// out.
    pub fn next(&mut self) -> (r: Option<&'a T>)
        requires
            old(self).wf(),
        ensures
            final(self).wf(),
            final(self).ring() == old(self).ring(),
            0 <= final(self).yielded() <= final(self).ring().spec_len(),
            old(self).yielded() < old(self).ring().spec_len() ==> {
                &&& r matches Some(e) && *e == old(self).ring().newest_first()[old(self).yielded()]
                &&& final(self).yielded() == old(self).yielded() + 1
            },
            old(self).yielded() >= old(self).ring().spec_len() ==> r is None && final(self).yielded()
                == old(self).yielded(),
    {
        if self.counter < self.val.len() {
            let val = self.val;
            let item = val.index(self.index);
            let ghost c = self.counter as int;
            proof {
                lemma_mod_back(val.pushes() - c, N as int);
                vstd::arithmetic::div_mod::lemma_small_mod(self.index as nat, N as nat);
            }
            let next_index = if self.index == 0 {
                N - 1
            } else {
                self.index - 1
            };
            assert(next_index == val.slot_of_age(c + 1));
            self.counter = self.counter + 1;
            self.index = next_index;
            Some(item)
        } else {
            None
        }
    }
}

} // verus!
