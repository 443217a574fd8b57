//! The abstract model of a history: its header and the bytes of its element
//! array, and what a push does to them.
use vstd::prelude::*;
use vstd::bytes::*;
use crate::errors::AccountHistoryProgramError;
use crate::header::AccountHistoryHeader;
use crate::regions::spec_flat_len_sum;

verus! {

/// The clock stored at the start of an element.
pub open spec fn spec_clock_of(e: Seq<u8>) -> u64 {
    spec_u64_from_le_bytes(e.take(8))
}

/// One past the last byte of pair `k` of a flat region list.
pub open spec fn spec_pair_end(flat: Seq<u32>, k: int) -> int {
    flat[2 * k] as int + flat[2 * k + 1] as int
}

/// Every region lies inside a buffer of `len` bytes.
pub open spec fn spec_regions_fit(flat: Seq<u32>, len: int) -> bool {
    forall|k: int| 0 <= k < 8 ==> #[trigger] spec_pair_end(flat, k) <= len
}

/// The bytes of the first `k` regions of `src`, one after another.
pub open spec fn spec_extract(src: Seq<u8>, flat: Seq<u32>, k: nat) -> Seq<u8>
    decreases k,
{
    if k == 0 {
        Seq::empty()
    } else {
        let i = k - 1;
        spec_extract(src, flat, i as nat) + src.subrange(
            flat[2 * i] as int,
            spec_pair_end(flat, i),
        )
    }
}

/// The element recorded for `src` at `clock`: the clock, little-endian, then
/// the bytes of each region in order.
pub open spec fn spec_element(src: Seq<u8>, clock: u64, flat: Seq<u32>) -> Seq<u8> {
    spec_u64_to_le_bytes(clock) + spec_extract(src, flat, 8)
}

/// `data` with the bytes from `start` on replaced by `e`.
pub open spec fn spec_write(data: Seq<u8>, start: int, e: Seq<u8>) -> Seq<u8> {
    data.subrange(0, start) + e + data.subrange(start + e.len(), data.len() as int)
}

/// A history as a value: its header and its element bytes.
pub struct HistoryView {
    pub header: AccountHistoryHeader,
    pub data: Seq<u8>,
}

impl HistoryView {
    pub open spec fn capacity(self) -> int {
        self.header.capacity as int
    }

    pub open spec fn element_size(self) -> int {
        self.header.data_element_size as int
    }

    pub open spec fn num_updates(self) -> int {
        self.header.num_updates as int
    }

    /// A well-formed header and an element array of exactly `capacity`
    /// elements.
    pub open spec fn wf(self) -> bool {
        &&& self.header.wf()
        &&& self.data.len() == self.capacity() * self.element_size()
    }

    /// The element in slot `i`.
    pub open spec fn entry(self, i: int) -> Seq<u8> {
        self.data.subrange(i * self.element_size(), i * self.element_size() + self.element_size())
    }

    /// The slot written last (slot zero before any push).
    pub open spec fn most_recent_index(self) -> int {
        self.num_updates() % self.capacity()
    }

    /// The element written last (all zero before any push).
    pub open spec fn most_recent_entry(self) -> Seq<u8> {
        self.entry(self.most_recent_index())
    }

    /// The number of elements held: the pushes so far, up to the capacity.
    pub open spec fn len(self) -> int {
        if self.num_updates() < self.capacity() {
            self.num_updates()
        } else {
            self.capacity()
        }
    }

    /// The slot of the element pushed `age` pushes before the latest one.
    pub open spec fn slot_of_age(self, age: int) -> int {
        (self.num_updates() - age) % self.capacity()
    }

    /// The elements held, newest first.
    pub open spec fn newest_first(self) -> Seq<Seq<u8>> {
        Seq::new(self.len() as nat, |k: int| self.entry(self.slot_of_age(k)))
    }

    /// The elements held, oldest first.
    pub open spec fn oldest_first(self) -> Seq<Seq<u8>> {
        self.newest_first().reverse()
    }

    /// The slot the next push writes.
    pub open spec fn next_index(self) -> int {
        (self.num_updates() + 1) % self.capacity()
    }

    /// Whether a push of `src` at `clock` is refused, and with which error.
    pub open spec fn spec_push_error(self, clock: u64) -> Option<AccountHistoryProgramError> {
        if self.header.close_initiated is Some {
            Some(AccountHistoryProgramError::AccountBeingClosed)
        } else if spec_clock_of(self.most_recent_entry()) as int + self.header.min_slot_delay as int
            > clock as int {
            Some(AccountHistoryProgramError::NotNewSlot)
        } else {
            None
        }
    }

    /// The history after recording `src` at `clock`, or the error that
    /// refuses it: a push writes the next slot and then counts itself.
    pub open spec fn spec_push(self, src: Seq<u8>, clock: u64) -> Result<
        HistoryView,
        AccountHistoryProgramError,
    > {
        match self.spec_push_error(clock) {
            Some(e) => Err(e),
            None => Ok(
                HistoryView {
                    header: AccountHistoryHeader {
                        num_updates: (self.header.num_updates + 1) as u64,
                        ..self.header
                    },
                    data: spec_write(
                        self.data,
                        self.next_index() * self.element_size(),
                        spec_element(src, clock, self.header.data_regions@),
                    ),
                },
            ),
        }
    }
}

/// The extracted bytes are as long as the regions together.
pub proof fn lemma_extract_len(src: Seq<u8>, flat: Seq<u32>, k: nat)
    requires
        flat.len() == 16,
        spec_regions_fit(flat, src.len() as int),
        k <= 8,
    ensures
        spec_extract(src, flat, k).len() == spec_flat_len_sum(flat, k),
    decreases k,
{
    if k > 0 {
        let i = k - 1;
        lemma_extract_len(src, flat, i as nat);
        assert(spec_pair_end(flat, i) <= src.len());
    }
}

/// An element holds its clock, and is as long as the header says.
pub proof fn lemma_element(src: Seq<u8>, clock: u64, h: AccountHistoryHeader)
    requires
        h.wf(),
        spec_regions_fit(h.data_regions@, src.len() as int),
    ensures
        spec_element(src, clock, h.data_regions@).len() == h.data_element_size,
        spec_clock_of(spec_element(src, clock, h.data_regions@)) == clock,
{
    lemma_auto_spec_u64_to_from_le_bytes();
    lemma_extract_len(src, h.data_regions@, 8);
    let e = spec_element(src, clock, h.data_regions@);
    assert(e.take(8) =~= spec_u64_to_le_bytes(clock));
}

/// Two slots fewer than `m` pushes apart are different slots.
pub proof fn lemma_mod_distinct(a: int, k: int, m: int)
    requires
        0 < k < m,
    ensures
        (a - k) % m != a % m,
{
    vstd::arithmetic::div_mod::lemma_fundamental_div_mod(a, m);
    vstd::arithmetic::div_mod::lemma_fundamental_div_mod(a - k, m);
    let q1 = a / m;
    let q2 = (a - k) / m;
    if (a - k) % m == a % m {
        assert(k == m * (q1 - q2)) by (nonlinear_arith)
            requires
                a == m * q1 + a % m,
                a - k == m * q2 + (a - k) % m,
                (a - k) % m == a % m,
        ;
        assert(false) by (nonlinear_arith)
            requires
                k == m * (q1 - q2),
                0 < k < m,
        ;
    }
}

pub proof fn lemma_mod_step(n: int, k: int, m: int)
    requires
        m > 0,
    ensures
        (n + 1 - (k + 1)) % m == (n - k) % m,
{
}

/// Slot `i` lies inside an array of `cap` elements of `es` bytes.
pub proof fn lemma_slot_bounds(i: int, es: int, cap: int)
    requires
        0 <= i < cap,
        es >= 0,
    ensures
        0 <= i * es,
        i * es + es <= cap * es,
{
    assert(0 <= i * es) by (nonlinear_arith)
        requires
            0 <= i,
            es >= 0,
    ;
    assert(i * es + es <= cap * es) by (nonlinear_arith)
        requires
            i + 1 <= cap,
            es >= 0,
    ;
}

/// Stepping back one slot wraps from the first slot to the last.
pub proof fn lemma_mod_back(a: int, m: int)
    requires
        m > 0,
    ensures
        (a - 1) % m == if a % m == 0 { m - 1 } else { a % m - 1 },
{
    vstd::arithmetic::div_mod::lemma_fundamental_div_mod(a, m);
    let q = a / m;
    let r = a % m;
    if r == 0 {
        assert(a - 1 == (q - 1) * m + (m - 1)) by (nonlinear_arith)
            requires
                a == m * q + r,
                r == 0,
        ;
        vstd::arithmetic::div_mod::lemma_fundamental_div_mod_converse_mod(a - 1, m, q - 1, m - 1);
    } else {
        assert(a - 1 == q * m + (r - 1)) by (nonlinear_arith)
            requires
                a == m * q + r,
        ;
        vstd::arithmetic::div_mod::lemma_fundamental_div_mod_converse_mod(a - 1, m, q, r - 1);
    }
}

/// Stepping forward one slot wraps from the last slot to the first.
pub proof fn lemma_mod_forward(a: int, m: int)
    requires
        m > 0,
    ensures
        (a + 1) % m == if a % m == m - 1 { 0 } else { a % m + 1 },
{
    lemma_mod_back(a + 1, m);
}

proof fn lemma_slots_apart(i: int, j: int, es: int)
    requires
        0 <= i < j,
        es >= 0,
    ensures
        i * es + es <= j * es,
{
    assert(i * es + es <= j * es) by (nonlinear_arith)
        requires
            i + 1 <= j,
            es >= 0,
    ;
}

impl HistoryView {
    /// Writing an element into slot `t` replaces that slot and leaves every
    /// other slot as it was.
    pub proof fn lemma_write_slot(self, t: int, e: Seq<u8>)
        requires
            self.wf(),
            0 <= t < self.capacity(),
            e.len() == self.element_size(),
        ensures
            ({
                let w = HistoryView {
                    data: spec_write(self.data, t * self.element_size(), e),
                    ..self
                };
                &&& w.data.len() == self.data.len()
                &&& w.entry(t) == e
                &&& forall|j: int|
                    0 <= j < self.capacity() && j != t ==> #[trigger] w.entry(j) == self.entry(j)
            }),
    {
        let es = self.element_size();
        let cap = self.capacity();
        let s = t * es;
        lemma_slot_bounds(t, es, cap);
        let w = HistoryView { data: spec_write(self.data, s, e), ..self };
        assert(w.data.len() == self.data.len());
        assert(w.entry(t) =~= e);
        assert forall|j: int| 0 <= j < cap && j != t implies #[trigger] w.entry(j) == self.entry(
            j,
        ) by {
            lemma_slot_bounds(j, es, cap);
            if j < t {
                lemma_slots_apart(j, t, es);
            } else {
                lemma_slots_apart(t, j, es);
            }
            assert(w.entry(j) =~= self.entry(j));
        }
    }

    /// What an accepted push does, seen from outside: the history stays
    /// well-formed, the new element becomes the most recent one and heads the
    /// newest-first sequence, followed by what was held before, of which the
    /// oldest drops out once the history is full.
    pub proof fn lemma_push(self, src: Seq<u8>, clock: u64)
        requires
            self.wf(),
            spec_regions_fit(self.header.data_regions@, src.len() as int),
            self.header.num_updates < u64::MAX,
            self.spec_push(src, clock) is Ok,
        ensures
            ({
                let w = self.spec_push(src, clock)->Ok_0;
                let e = spec_element(src, clock, self.header.data_regions@);
                &&& w.wf()
                &&& w.num_updates() == self.num_updates() + 1
                &&& w.most_recent_index() == self.next_index()
                &&& w.most_recent_entry() == e
                &&& spec_clock_of(e) == clock
                &&& w.len() == if self.num_updates() + 1 < self.capacity() {
                    self.num_updates() + 1
                } else {
                    self.capacity()
                }
                &&& w.newest_first() == seq![e] + self.newest_first().take(w.len() - 1)
            }),
    {
        let w = self.spec_push(src, clock)->Ok_0;
        let e = spec_element(src, clock, self.header.data_regions@);
        let cap = self.capacity();
        let t = self.next_index();
        lemma_element(src, clock, self.header);
        self.lemma_write_slot(t, e);
        let w2 = HistoryView { data: spec_write(self.data, t * self.element_size(), e), ..self };
        assert(w.data == w2.data);
        assert(w.element_size() == w2.element_size());
        assert(forall|j: int| #[trigger] w.entry(j) == w2.entry(j));
        let expected = seq![e] + self.newest_first().take(w.len() - 1);
        assert forall|k: int| 0 <= k < w.len() implies #[trigger] w.newest_first()[k]
            == expected[k] by {
            assert(w.num_updates() == self.num_updates() + 1);
            if k > 0 {
                lemma_mod_step(self.num_updates(), k - 1, cap);
                lemma_mod_distinct(self.num_updates() + 1, k, cap);
                let slot = w.slot_of_age(k);
                assert(slot == self.slot_of_age(k - 1));
                assert(0 <= slot < cap);
                assert(slot != t);
                assert(w.entry(slot) == self.entry(slot));
                assert(k - 1 < self.len());
                assert(expected[k] == self.newest_first()[k - 1]);
            } else {
                assert(w.slot_of_age(0) == t);
            }
        }
        assert(w.newest_first() =~= expected);
    }
}

impl HistoryView {
    /// The history after pushing each `(src, clock)` of `entries` in order,
    /// or the first error.
    pub open spec fn spec_push_all(self, entries: Seq<(Seq<u8>, u64)>) -> Result<
        HistoryView,
        AccountHistoryProgramError,
    >
        decreases entries.len(),
    {
        if entries.len() == 0 {
            Ok(self)
        } else {
            match self.spec_push_all(entries.drop_last()) {
                Ok(w) => w.spec_push(entries.last().0, entries.last().1),
                Err(e) => Err(e),
            }
        }
    }

    /// The clocks of the elements held strictly decrease from newest to
    /// oldest.
    pub open spec fn clocks_descend(self) -> bool {
        forall|i: int, j: int|
            0 <= i < j < self.len() ==> spec_clock_of(#[trigger] self.newest_first()[i])
                > spec_clock_of(#[trigger] self.newest_first()[j])
    }
}

/// Each entry's data covers the regions, and its clock is at least `delay`
/// past the one before it (the first one past `first_floor`).
pub open spec fn spec_spaced(
    entries: Seq<(Seq<u8>, u64)>,
    flat: Seq<u32>,
    first_floor: int,
    delay: int,
) -> bool {
    &&& forall|i: int|
        0 <= i < entries.len() ==> spec_regions_fit(flat, (#[trigger] entries[i]).0.len() as int)
    &&& entries.len() > 0 ==> entries[0].1 as int >= first_floor + delay
    &&& forall|i: int|
        1 <= i < entries.len() ==> (#[trigger] entries[i]).1 as int >= entries[i - 1].1 as int
            + delay
}

proof fn lemma_spaced_prefix(entries: Seq<(Seq<u8>, u64)>, flat: Seq<u32>, floor: int, delay: int)
    requires
        spec_spaced(entries, flat, floor, delay),
        entries.len() > 0,
    ensures
        spec_spaced(entries.drop_last(), flat, floor, delay),
{
    let p = entries.drop_last();
    assert forall|i: int| 1 <= i < p.len() implies (#[trigger] p[i]).1 as int >= p[i - 1].1 as int
        + delay by {
        assert(p[i] == entries[i]);
        assert(p[i - 1] == entries[i - 1]);
    }
    assert forall|i: int| 0 <= i < p.len() implies spec_regions_fit(
        flat,
        (#[trigger] p[i]).0.len() as int,
    ) by {
        assert(p[i] == entries[i]);
    }
}

/// Pushing entries whose clocks are spaced by at least the minimum delay onto
/// an open history succeeds every time: afterwards the history holds the
/// pushes so far up to its capacity, its header is unchanged but for the
/// count, and its most recent element is the last one pushed, with its clock.
pub proof fn lemma_spaced_pushes(v: HistoryView, entries: Seq<(Seq<u8>, u64)>)
    requires
        v.wf(),
        v.header.close_initiated is None,
        v.num_updates() + entries.len() <= u64::MAX,
        spec_spaced(
            entries,
            v.header.data_regions@,
            spec_clock_of(v.most_recent_entry()) as int,
            v.header.min_slot_delay as int,
        ),
    ensures
        v.spec_push_all(entries) is Ok,
        ({
            let w = v.spec_push_all(entries)->Ok_0;
            let k = entries.len() as int;
            &&& w.wf()
            &&& w.header == (AccountHistoryHeader {
                num_updates: (v.header.num_updates + k) as u64,
                ..v.header
            })
            &&& w.len() == if v.num_updates() + k < v.capacity() {
                v.num_updates() + k
            } else {
                v.capacity()
            }
            &&& k > 0 ==> w.most_recent_entry() == spec_element(
                entries[k - 1].0,
                entries[k - 1].1,
                v.header.data_regions@,
            )
            &&& k > 0 ==> spec_clock_of(w.most_recent_entry()) == entries[k - 1].1
            &&& k > 0 ==> w.newest_first()[0] == w.most_recent_entry()
        }),
    decreases entries.len(),
{
    let k = entries.len() as int;
    if k > 0 {
        let prefix = entries.drop_last();
        lemma_spaced_prefix(
            entries,
            v.header.data_regions@,
            spec_clock_of(v.most_recent_entry()) as int,
            v.header.min_slot_delay as int,
        );
        lemma_spaced_pushes(v, prefix);
        let u = v.spec_push_all(prefix)->Ok_0;
        let last = entries.last();
        assert(last == entries[k - 1]);
        if k > 1 {
            assert(prefix[k - 2] == entries[k - 2]);
        }
        assert(spec_regions_fit(u.header.data_regions@, last.0.len() as int));
        assert(u.spec_push_error(last.1) is None);
        u.lemma_push(last.0, last.1);
        let w = u.spec_push(last.0, last.1)->Ok_0;
        assert(w.slot_of_age(0) == w.most_recent_index());
    }
}

/// After `capacity + 1` spaced pushes the slot written by the first push
/// holds the element of the last one, and the history holds `capacity`
/// elements.
pub proof fn lemma_ring_overwrites(v: HistoryView, entries: Seq<(Seq<u8>, u64)>)
    requires
        v.wf(),
        v.header.close_initiated is None,
        entries.len() == v.capacity() + 1,
        v.num_updates() + entries.len() <= u64::MAX,
        spec_spaced(
            entries,
            v.header.data_regions@,
            spec_clock_of(v.most_recent_entry()) as int,
            v.header.min_slot_delay as int,
        ),
    ensures
        v.spec_push_all(entries) is Ok,
        v.spec_push_all(entries)->Ok_0.entry(v.next_index()) == spec_element(
            entries.last().0,
            entries.last().1,
            v.header.data_regions@,
        ),
        v.spec_push_all(entries)->Ok_0.len() == v.capacity(),
{
    lemma_spaced_pushes(v, entries);
    let w = v.spec_push_all(entries)->Ok_0;
    let cap = v.capacity();
    vstd::arithmetic::div_mod::lemma_mod_add_multiples_vanish(v.num_updates() + 1, cap);
    assert(w.num_updates() == v.num_updates() + 1 + cap);
    assert(w.most_recent_index() == v.next_index());
}

/// A history with no pushes holds nothing, so its clocks descend.
pub proof fn lemma_blank_descends(v: HistoryView)
    requires
        v.num_updates() == 0,
    ensures
        v.clocks_descend(),
{
}

/// Pushing spaced entries, with a minimum delay of at least one, onto a
/// history whose clocks descend keeps them descending: walking it newest
/// first gives `len()` elements of strictly decreasing clocks, and walking it
/// oldest first gives the same elements with strictly increasing clocks.
pub proof fn lemma_iteration_order(v: HistoryView, entries: Seq<(Seq<u8>, u64)>)
    requires
        v.wf(),
        v.header.close_initiated is None,
        v.header.min_slot_delay >= 1,
        v.clocks_descend(),
        v.num_updates() + entries.len() <= u64::MAX,
        spec_spaced(
            entries,
            v.header.data_regions@,
            spec_clock_of(v.most_recent_entry()) as int,
            v.header.min_slot_delay as int,
        ),
    ensures
        v.spec_push_all(entries) is Ok,
        ({
            let w = v.spec_push_all(entries)->Ok_0;
            &&& w.newest_first().len() == w.len()
            &&& w.clocks_descend()
            &&& w.oldest_first() == w.newest_first().reverse()
            &&& forall|i: int, j: int|
                0 <= i < j < w.len() ==> spec_clock_of(#[trigger] w.oldest_first()[i])
                    < spec_clock_of(#[trigger] w.oldest_first()[j])
        }),
    decreases entries.len(),
{
    lemma_spaced_pushes(v, entries);
    let w = v.spec_push_all(entries)->Ok_0;
    let k = entries.len() as int;
    if k > 0 {
        let prefix = entries.drop_last();
        lemma_spaced_prefix(
            entries,
            v.header.data_regions@,
            spec_clock_of(v.most_recent_entry()) as int,
            v.header.min_slot_delay as int,
        );
        lemma_iteration_order(v, prefix);
        lemma_spaced_pushes(v, prefix);
        let u = v.spec_push_all(prefix)->Ok_0;
        let last = entries.last();
        assert(last == entries[k - 1]);
        if k > 1 {
            assert(prefix[k - 2] == entries[k - 2]);
        }
        assert(spec_regions_fit(u.header.data_regions@, last.0.len() as int));
        u.lemma_push(last.0, last.1);
        let e = spec_element(last.0, last.1, v.header.data_regions@);
        assert(w.newest_first() == seq![e] + u.newest_first().take(w.len() - 1));
        if u.len() > 0 {
            assert(u.newest_first()[0] == u.most_recent_entry());
        }
        assert forall|i: int, j: int| 0 <= i < j < w.len() implies spec_clock_of(
            #[trigger] w.newest_first()[i],
        ) > spec_clock_of(#[trigger] w.newest_first()[j]) by {
            assert(w.newest_first()[j] == u.newest_first()[j - 1]);
            if i == 0 {
                assert(spec_clock_of(w.newest_first()[0]) == last.1);
                assert(spec_clock_of(u.newest_first()[0]) >= spec_clock_of(u.newest_first()[j - 1]));
            } else {
                assert(w.newest_first()[i] == u.newest_first()[i - 1]);
            }
        }
    }
    let nf = w.newest_first();
    assert forall|i: int, j: int| 0 <= i < j < w.len() implies spec_clock_of(
        #[trigger] w.oldest_first()[i],
    ) < spec_clock_of(#[trigger] w.oldest_first()[j]) by {
        assert(w.oldest_first()[i] == nf[w.len() - 1 - i]);
        assert(w.oldest_first()[j] == nf[w.len() - 1 - j]);
    }
}

} // verus!
