//! The history held in a byte buffer: a header followed by `capacity`
//! elements of `element size` bytes, written in a circle.
use vstd::prelude::*;
use vstd::bytes::*;
use vstd::slice::*;
use crate::errors::AccountHistoryProgramError;
use crate::header::{spec_layout_ok, spec_u64_at, AccountHistoryHeader, ACCOUNT_HISTORY_TAG, CLOCK_SIZE, HEADER_SIZE};
use crate::identity::Identity;
use crate::regions::{sanitize_data_regions, spec_canonical, spec_flat_len_sum, spec_regions_len_sum, unflatten_data_regions};
use crate::ring::{lemma_element, lemma_mod_back, lemma_mod_forward, spec_element, spec_extract, spec_pair_end, spec_regions_fit, spec_write, HistoryView};

verus! {

/// A history decoded from its buffer. The element bytes follow the header
/// exactly as they lie in the buffer; [`AccountHistoryRaw::to_buffer`] gives
/// the buffer back.
pub struct AccountHistoryRaw {
    header: AccountHistoryHeader,
    data: Vec<u8>,
}

impl View for AccountHistoryRaw {
    type V = HistoryView;

    closed spec fn view(&self) -> HistoryView {
        HistoryView { header: self.header, data: self.data@ }
    }
}

/// Appends the bytes of `b` to `out`.
fn append_bytes(out: &mut Vec<u8>, b: &[u8])
    ensures
        final(out)@ == old(out)@ + b@,
{
    let ghost start = out@;
    let n = b.len();
    let mut i: usize = 0;
    while i < n
        invariant
            i <= n == b@.len(),
            out@ == start + b@.take(i as int),
        decreases n - i,
    {
        out.push(b[i]);
        proof {
            assert(b@.take(i + 1) =~= b@.take(i as int).push(b@[i as int]));
        }
        i = i + 1;
    }
    assert(b@.take(n as int) =~= b@);
}

/// Builds the element recorded for `src` at `clock`.
fn build_element(src: &[u8], clock: u64, flat: &[u32; 16]) -> (r: Vec<u8>)
    requires
        spec_regions_fit(flat@, src@.len() as int),
    ensures
        r@ == spec_element(src@, clock, flat@),
{
    let n = src.len();
    let mut out = u64_to_le_bytes(clock);
    let mut k: usize = 0;
    while k < 8
        invariant
            k <= 8,
            n == src@.len(),
            flat@.len() == 16,
            spec_regions_fit(flat@, src@.len() as int),
            out@ == spec_u64_to_le_bytes(clock) + spec_extract(src@, flat@, k as nat),
        decreases 8 - k,
    {
        let off = flat[2 * k] as usize;
        let len = flat[2 * k + 1] as usize;
        proof {
            assert(spec_pair_end(flat@, k as int) <= src@.len());
        }
        let part = slice_subrange(src, off, off + len);
        append_bytes(&mut out, part);
        proof {
            assert(spec_extract(src@, flat@, (k + 1) as nat) == spec_extract(src@, flat@, k as nat)
                + part@);
        }
        k = k + 1;
    }
    out
}

/// Copies `src` over `dst` from `start` on.
fn write_bytes(dst: &mut Vec<u8>, start: usize, src: &Vec<u8>)
    requires
        start + src@.len() <= old(dst)@.len(),
    ensures
        final(dst)@ == spec_write(old(dst)@, start as int, src@),
{
    let ghost before = dst@;
    let dlen = dst.len();
    let n = src.len();
    let mut j: usize = 0;
    while j < n
        invariant
            j <= n == src@.len(),
            start + n <= before.len() == dlen,
            dst@.len() == before.len(),
            forall|i: int|
                0 <= i < before.len() ==> #[trigger] dst@[i] == if start <= i < start + j {
                    src@[i - start]
                } else {
                    before[i]
                },
        decreases n - j,
    {
        dst.set(start + j, src[j]);
        j = j + 1;
    }
    assert(dst@ =~= spec_write(before, start as int, src@));
}

/// The sum of the region lengths of a flat form.
pub(crate) fn flat_len_sum(flat: &[u32; 16]) -> (r: u64)
    ensures
        r == spec_flat_len_sum(flat@, 8),
        r <= 8 * 0xffff_ffff,
{
    let mut sum: u64 = 0;
    let mut k: usize = 0;
    while k < 8
        invariant
            k <= 8,
            flat@.len() == 16,
            sum == spec_flat_len_sum(flat@, k as nat),
            sum <= k * 0xffff_ffff,
        decreases 8 - k,
    {
        sum = sum + flat[2 * k + 1] as u64;
        k = k + 1;
    }
    sum
}

fn words_equal(a: &[u32; 16], b: &[u32; 16]) -> (r: bool)
    ensures
        r == (a@ == b@),
{
    let mut i: usize = 0;
    while i < 16
        invariant
            i <= 16,
            forall|j: int| 0 <= j < i ==> a@[j] == b@[j],
        decreases 16 - i,
    {
        if a[i] != b[i] {
            return false;
        }
        i = i + 1;
    }
    assert(a@ =~= b@);
    true
}

/// Whether a flat region list is in canonical form.
fn is_canonical(flat: &[u32; 16]) -> (r: bool)
    ensures
        r == spec_canonical(flat@),
{
    let regions = unflatten_data_regions(flat);
    match sanitize_data_regions(regions.as_slice()) {
        Ok(back) => words_equal(&back, flat),
        Err(_) => false,
    }
}

impl AccountHistoryRaw {
    /// The buffer length needed for `capacity` elements over the regions
    /// `data_locations`: the header, then each element's clock and region
    /// bytes. `None` when that length does not fit in a `usize`.
    pub fn size_of(capacity: u32, data_locations: &[(u32, u32)]) -> (r: Option<usize>)
        ensures
            ({
                let total = HEADER_SIZE + capacity as int * (CLOCK_SIZE + spec_regions_len_sum(
                    data_locations@,
                ));
                &&& r matches Some(n) ==> n as int == total
                &&& r is None ==> total > usize::MAX
            }),
    {
        let n = data_locations.len();
        let mut sum: u128 = 0;
        let mut i: usize = 0;
        while i < n
            invariant
                i <= n == data_locations@.len(),
                sum == spec_regions_len_sum(data_locations@.take(i as int)),
                sum <= i * 0xffff_ffff,
            decreases n - i,
        {
            proof {
                assert(data_locations@.take(i + 1).drop_last() =~= data_locations@.take(i as int));
            }
            sum = sum + data_locations[i].1 as u128;
            i = i + 1;
        }
        assert(data_locations@.take(n as int) =~= data_locations@);
        proof {
            assert(sum <= 0xffff_ffff_ffff_ffff * 0xffff_ffff) by (nonlinear_arith)
                requires
                    sum <= n * 0xffff_ffff,
                    n <= 0xffff_ffff_ffff_ffff,
            ;
        }
        let element = sum + CLOCK_SIZE as u128;
        if capacity == 0 {
            return Some(HEADER_SIZE);
        }
        proof {
            assert(capacity as int * element >= element) by (nonlinear_arith)
                requires
                    capacity >= 1,
                    element >= 0,
            ;
        }
        if element > u64::MAX as u128 {
            return None;
        }
        proof {
            assert(capacity as int * element <= 0xffff_ffff * 0xffff_ffff_ffff_ffff)
                by (nonlinear_arith)
                requires
                    capacity <= 0xffff_ffff,
                    element <= 0xffff_ffff_ffff_ffff,
            ;
            assert(capacity as int * element >= element) by (nonlinear_arith)
                requires
                    capacity >= 1,
                    element >= 0,
            ;
        }
        let total = HEADER_SIZE as u128 + capacity as u128 * element;
        if total <= usize::MAX as u128 {
            Some(total as usize)
        } else {
            None
        }
    }

    /// Decodes a history buffer.
    ///
    /// Fails with `InvalidDataType` when the buffer is shorter than the
    /// header, with `InvalidAccountTag` when it does not open with the tag,
    /// and with `InvalidDataType` when its header does not describe a usable
    /// history of exactly the buffer's length.
    pub fn from_buffer(data: &[u8]) -> (r: Result<AccountHistoryRaw, AccountHistoryProgramError>)
        ensures
            r is Ok <==> spec_layout_ok(data@),
            r == Err::<AccountHistoryRaw, _>(AccountHistoryProgramError::InvalidAccountTag) <==> (
            data@.len() >= HEADER_SIZE && spec_u64_at(data@, 0) != ACCOUNT_HISTORY_TAG),
            r is Err ==> r == Err::<AccountHistoryRaw, _>(
                AccountHistoryProgramError::InvalidAccountTag,
            ) || r == Err::<AccountHistoryRaw, _>(AccountHistoryProgramError::InvalidDataType),
            r matches Ok(h) ==> {
                &&& h@.wf()
                &&& h@.header.spec_bytes() == data@.take(HEADER_SIZE as int)
                &&& h@.data == data@.skip(HEADER_SIZE as int)
            },
    {
        let len = data.len();
        if len < HEADER_SIZE {
            return Err(AccountHistoryProgramError::InvalidDataType);
        }
        let tag = u64_from_le_bytes(slice_subrange(data, 0, 8));
        if tag != ACCOUNT_HISTORY_TAG {
            return Err(AccountHistoryProgramError::InvalidAccountTag);
        }
        let header = AccountHistoryHeader::read_from(data);
        if header.capacity == 0 || !is_canonical(&header.data_regions) {
            return Err(AccountHistoryProgramError::InvalidDataType);
        }
        let sum = flat_len_sum(&header.data_regions);
        if header.data_element_size as u64 != CLOCK_SIZE as u64 + sum {
            return Err(AccountHistoryProgramError::InvalidDataType);
        }
        let body = (len - HEADER_SIZE) as u64;
        proof {
            assert(header.capacity as int * header.data_element_size as int <= 0xffff_ffff
                * 0xffff_ffff) by (nonlinear_arith)
                requires
                    header.capacity <= 0xffff_ffff,
                    header.data_element_size <= 0xffff_ffff,
            ;
        }
        if body != header.capacity as u64 * header.data_element_size as u64 {
            return Err(AccountHistoryProgramError::InvalidDataType);
        }
        let rest = slice_to_vec(slice_subrange(data, HEADER_SIZE, len));
        assert(rest@ =~= data@.skip(HEADER_SIZE as int));
        Ok(AccountHistoryRaw { header, data: rest })
    }

    /// The buffer this history is stored in: the header bytes, then the
    /// element bytes.
    pub fn to_buffer(&self) -> (r: Vec<u8>)
        requires
            self@.wf(),
        ensures
            r@ == self@.header.spec_bytes() + self@.data,
            spec_layout_ok(r@),
    {
        proof {
            crate::header::lemma_stored_layout(self.header, self.data@);
        }
        let mut out = self.header.to_bytes();
        append_bytes(&mut out, self.data.as_slice());
        out
    }

    /// Slot `i`, for `i` below the capacity.
    fn slot(&self, i: usize) -> (r: &[u8])
        requires
            self@.wf(),
            i < self@.capacity(),
        ensures
            r@ == self@.entry(i as int),
            r@.len() == self@.element_size(),
    {
        let es = self.header.data_element_size as usize;
        let _len = self.data.len(); // bounds the length by usize::MAX for the offsets below
        proof {
            crate::ring::lemma_slot_bounds(i as int, es as int, self@.capacity());
        }
        slice_subrange(self.data.as_slice(), i * es, i * es + es)
    }

    /// The slot written last; zero before the first push.
    pub fn most_recent_index(&self) -> (r: usize)
        requires
            self@.wf(),
        ensures
            r == self@.most_recent_index(),
    {
        (self.header.num_updates % self.header.capacity as u64) as usize
    }

    /// The element written last; all zero bytes before the first push.
    pub fn most_recent_entry(&self) -> (r: &[u8])
        requires
            self@.wf(),
        ensures
            r@ == self@.most_recent_entry(),
    {
        self.slot(self.most_recent_index())
    }

    /// The element in slot `index` modulo the capacity.
    pub fn index(&self, index: usize) -> (r: &[u8])
        requires
            self@.wf(),
        ensures
            r@ == self@.entry(index as int % self@.capacity()),
    {
        self.slot(index % self.header.capacity as usize)
    }

    /// Records the regions of `data` at clock `slot`.
    ///
    /// Fails with `AccountBeingClosed` once closing has begun, and with
    /// `NotNewSlot` when `slot` is less than the most recent entry's clock
    /// plus the minimum delay. Otherwise the element (the clock, then each
    /// region's bytes) goes into the slot after the most recent one, and the
    /// update count grows by one. Nothing changes on failure.
    pub fn push(&mut self, data: &[u8], slot: u64) -> (r: Result<(), AccountHistoryProgramError>)
        requires
            old(self)@.wf(),
            old(self)@.spec_push_error(slot) is None ==> spec_regions_fit(
                old(self)@.header.data_regions@,
                data@.len() as int,
            ),
            old(self)@.header.num_updates < u64::MAX,
        ensures
            match old(self)@.spec_push(data@, slot) {
                Ok(v) => r is Ok && final(self)@ == v,
                Err(e) => r == Err::<(), _>(e) && final(self)@ == old(self)@,
            },
            r is Ok ==> final(self)@.wf(),
            r is Ok ==> final(self)@.most_recent_index() == (old(self)@.num_updates() + 1)
                % old(self)@.capacity(),
            r is Ok ==> final(self)@.len() == if old(self)@.num_updates() + 1 < old(
                self,
            )@.capacity() {
                old(self)@.num_updates() + 1
            } else {
                old(self)@.capacity()
            },
            r is Ok ==> final(self)@.most_recent_entry() == spec_element(
                data@,
                slot,
                old(self)@.header.data_regions@,
            ),
            r is Ok ==> final(self)@.newest_first() == seq![
                spec_element(data@, slot, old(self)@.header.data_regions@),
            ] + old(self)@.newest_first().take(final(self)@.len() - 1),
    {
        if let Some(e) = self.push_error(slot) {
            return Err(e);
        }
        proof {
            old(self)@.lemma_push(data@, slot);
        }
        self.record(data, slot);
        Ok(())
    }

    /// The error with which a push at `slot` would be refused, if any:
    /// `AccountBeingClosed` once closing has begun, else `NotNewSlot` when
    /// `slot` is less than the most recent entry's clock plus the minimum
    /// delay. No byte of the watched data is needed to decide this.
    pub fn push_error(&self, slot: u64) -> (r: Option<AccountHistoryProgramError>)
        requires
            self@.wf(),
        ensures
            r == self@.spec_push_error(slot),
    {
        if self.header.close_initiated.is_some() {
            return Some(AccountHistoryProgramError::AccountBeingClosed);
        }
        let latest = self.slot(self.most_recent_index());
        assert(latest@.len() >= 8);
        let last_slot = u64_from_le_bytes(slice_subrange(latest, 0, 8));
        assert(latest@.subrange(0, 8) =~= latest@.take(8));
        if last_slot as u128 + self.header.min_slot_delay as u128 > slot as u128 {
            return Some(AccountHistoryProgramError::NotNewSlot);
        }
        None
    }

    /// Writes the element for `data` at `slot` into the next slot and counts
    /// the push.
    fn record(&mut self, data: &[u8], slot: u64)
        requires
            old(self)@.wf(),
            spec_regions_fit(old(self)@.header.data_regions@, data@.len() as int),
            old(self)@.header.num_updates < u64::MAX,
            old(self)@.spec_push_error(slot) is None,
        ensures
            final(self)@ == old(self)@.spec_push(data@, slot)->Ok_0,
    {
        let next = ((self.header.num_updates + 1) % self.header.capacity as u64) as usize;
        let es = self.header.data_element_size as usize;
        let _len = self.data.len(); // bounds the length by usize::MAX for the offsets below
        proof {
            crate::ring::lemma_slot_bounds(next as int, es as int, self@.capacity());
            lemma_element(data@, slot, self.header);
        }
        let element = build_element(data, slot, &self.header.data_regions);
        write_bytes(&mut self.data, next * es, &element);
        self.header.num_updates = self.header.num_updates + 1;
    }

    /// Number of successful pushes so far.
    pub fn num_updates(&self) -> (r: u64)
        ensures
            r == self@.header.num_updates,
    {
        self.header.num_updates
    }

    /// The watched account.
    pub fn associated_account(&self) -> (r: Identity)
        ensures
            r == self@.header.associated_account,
    {
        self.header.associated_account
    }

    /// Number of elements the history holds when full.
    pub fn capacity(&self) -> (r: usize)
        ensures
            r == self@.capacity(),
    {
        self.header.capacity as usize
    }

    /// Number of elements held: the pushes so far, up to the capacity.
    pub fn len(&self) -> (r: usize)
        requires
            self@.wf(),
        ensures
            r == self@.len(),
    {
        if self.header.num_updates < self.header.capacity as u64 {
            self.header.num_updates as usize
        } else {
            self.header.capacity as usize
        }
    }

    /// Puts a header and element bytes together.
    pub(crate) fn assemble(header: AccountHistoryHeader, data: Vec<u8>) -> (r: AccountHistoryRaw)
        ensures
            r@ == (HistoryView { header, data: data@ }),
    {
        AccountHistoryRaw { header, data }
    }

    /// Marks closing as begun at `clock`.
    pub(crate) fn set_close_initiated(&mut self, clock: u64)
        ensures
            final(self)@ == (HistoryView {
                header: AccountHistoryHeader { close_initiated: Some(clock), ..old(self)@.header },
                ..old(self)@
            }),
    {
        self.header.close_initiated = Some(clock);
    }

    /// A history stored with [`AccountHistoryRaw::to_buffer`] decodes back
    /// to itself: a decoded history is determined by the buffer it came from.
    pub proof fn lemma_buffer_round_trip(v: HistoryView, w: HistoryView)
        requires
            v.wf(),
            w.wf(),
            w.header.spec_bytes() == (v.header.spec_bytes() + v.data).take(HEADER_SIZE as int),
            w.data == (v.header.spec_bytes() + v.data).skip(HEADER_SIZE as int),
        ensures
            w == v,
    {
        crate::header::lemma_stored_layout(v.header, v.data);
        crate::header::lemma_header_bytes_injective(v.header, w.header);
    }

    /// A copy of the header.
    pub fn header(&self) -> (r: AccountHistoryHeader)
        ensures
            r == self@.header,
    {
        self.header
    }

    /// A copy of the element bytes.
    pub fn data(&self) -> (r: Vec<u8>)
        ensures
            r@ == self@.data,
    {
        slice_to_vec(self.data.as_slice())
    }
}

/// Walks a history from the newest element to the oldest.
pub struct AccountHistoryRawIterator<'data> {
    val: &'data AccountHistoryRaw,
    counter: usize,
    index: usize,
}

impl<'data> AccountHistoryRawIterator<'data> {
    /// The history walked.
    pub closed spec fn history(&self) -> HistoryView {
        self.val@
    }

    /// How many elements were handed out so far.
    pub closed spec fn yielded(&self) -> int {
        self.counter as int
    }

    pub closed spec fn wf(&self) -> bool {
        &&& self.val@.wf()
        &&& self.counter <= self.val@.len()
        &&& self.index == self.val@.slot_of_age(self.counter as int)
    }

    /// A well-formed walk is over a well-formed history and has handed out
    /// between zero and `len()` elements.
    pub proof fn lemma_wf(&self)
        requires
            self.wf(),
        ensures
            self.history().wf(),
            0 <= self.yielded() <= self.history().len(),
    {
    }

    /// Starts at the most recent element.
    pub fn from(value: &'data AccountHistoryRaw) -> (r: Self)
        requires
            value@.wf(),
        ensures
            r.wf(),
            r.history() == value@,
            r.history().wf(),
            r.yielded() == 0,
    {
        AccountHistoryRawIterator { val: value, counter: 0, index: value.most_recent_index() }
    }

    /// The next older element, or `None` once all `len()` elements were
    /// handed out.
    #[verifier::spinoff_prover]
    #[verifier::rlimit(40)]
    pub fn next(&mut self) -> (r: Option<&'data [u8]>)
        requires
            old(self).wf(),
        ensures
            final(self).wf(),
            final(self).history() == old(self).history(),
            final(self).history().wf(),
            0 <= final(self).yielded() <= final(self).history().len(),
            old(self).yielded() < old(self).history().len() ==> {
                &&& r matches Some(e) && e@ == old(self).history().newest_first()[old(
                    self,
                ).yielded()]
                &&& final(self).yielded() == old(self).yielded() + 1
            },
            old(self).yielded() >= old(self).history().len() ==> r is None && final(self).yielded()
                == old(self).yielded(),
    {
        if self.counter < self.val.len() {
            let val = self.val;
            let slice = val.slot(self.index);
            let ghost v = val@;
            let ghost c = self.counter as int;
            proof {
                lemma_mod_back(v.num_updates() - c, v.capacity());
                assert(v.slot_of_age(c + 1) == (v.num_updates() - c - 1) % v.capacity());
                assert(slice@ == v.newest_first()[c]);
            }
            let next_index = if self.index == 0 {
                val.capacity() - 1
            } else {
                self.index - 1
            };
            assert(next_index == v.slot_of_age(c + 1));
            self.counter = self.counter + 1;
            self.index = next_index;
            Some(slice)
        } else {
            None
        }
    }
}

/// Walks a history from the oldest element to the newest.
pub struct AccountHistoryRawReverseIterator<'data> {
    val: &'data AccountHistoryRaw,
    counter: usize,
    index: usize,
}

impl<'data> AccountHistoryRawReverseIterator<'data> {
    /// The history walked.
    pub closed spec fn history(&self) -> HistoryView {
        self.val@
    }

    /// How many elements were handed out so far.
    pub closed spec fn yielded(&self) -> int {
        self.counter as int
    }

    pub closed spec fn wf(&self) -> bool {
        &&& self.val@.wf()
        &&& self.counter <= self.val@.len()
        &&& self.index == (self.val@.num_updates() - self.val@.len() + 1 + self.counter)
            % self.val@.capacity()
    }

    /// A well-formed walk is over a well-formed history and has handed out
    /// between zero and `len()` elements.
    pub proof fn lemma_wf(&self)
        requires
            self.wf(),
        ensures
            self.history().wf(),
            0 <= self.yielded() <= self.history().len(),
    {
    }

    /// Starts at the oldest element held.
    pub fn from(value: &'data AccountHistoryRaw) -> (r: Self)
        requires
            value@.wf(),
        ensures
            r.wf(),
            r.history() == value@,
            r.history().wf(),
            r.yielded() == 0,
    {
        let len = value.len();
        let cap = value.header.capacity as u64;
        let n = value.header.num_updates;
        // n - len + 1 taken modulo the capacity, without leaving the u64 range
        let start = ((n - len as u64) % cap + 1) % cap;
        proof {
            vstd::arithmetic::div_mod::lemma_add_mod_noop_right(1, (n - len) as int, cap as int);
        }
        AccountHistoryRawReverseIterator { val: value, counter: 0, index: start as usize }
    }

    /// The next newer element, or `None` once all `len()` elements were
    /// handed out.
    #[verifier::spinoff_prover]
    #[verifier::rlimit(40)]
    pub fn next(&mut self) -> (r: Option<&'data [u8]>)
        requires
            old(self).wf(),
        ensures
            final(self).wf(),
            final(self).history() == old(self).history(),
            final(self).history().wf(),
            0 <= final(self).yielded() <= final(self).history().len(),
            old(self).yielded() < old(self).history().len() ==> {
                &&& r matches Some(e) && e@ == old(self).history().oldest_first()[old(
                    self,
                ).yielded()]
                &&& final(self).yielded() == old(self).yielded() + 1
            },
            old(self).yielded() >= old(self).history().len() ==> r is None && final(self).yielded()
                == old(self).yielded(),
    {
        if self.counter < self.val.len() {
            let val = self.val;
            let slice = val.slot(self.index);
            let ghost v = val@;
            let ghost c = self.counter as int;
            proof {
                lemma_mod_forward(v.num_updates() - v.len() + 1 + c, v.capacity());
                assert(v.slot_of_age(v.len() - 1 - c) == (v.num_updates() - v.len() + 1 + c)
                    % v.capacity());
                assert(slice@ == v.newest_first()[v.len() - 1 - c]);
                assert(slice@ == v.oldest_first()[c]);
            }
            let next_index = if self.index == val.capacity() - 1 {
                0
            } else {
                self.index + 1
            };
            assert(next_index == (v.num_updates() - v.len() + 1 + (c + 1)) % v.capacity());
            self.counter = self.counter + 1;
            self.index = next_index;
            Some(slice)
        } else {
            None
        }
    }
}

} // verus!
