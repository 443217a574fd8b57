//! The fixed-size header at the start of a history buffer, and its byte layout.
//!
//! Layout, all integers little-endian:
//!
//! | offset | width | field                                   |
//! |-------:|------:|-----------------------------------------|
//! |      0 |     8 | tag                                     |
//! |      8 |    32 | watched account                         |
//! |     40 |    32 | close authority                         |
//! |     72 |    32 | update authority (zeros: unrestricted)  |
//! |    104 |     4 | capacity                                |
//! |    108 |     4 | element size                            |
//! |    112 |     8 | number of updates                       |
//! |    120 |     4 | minimum clock delay                     |
//! |    124 |     4 | minimum close delay                     |
//! |    128 |     8 | clock at which closing began (0: none)  |
//! |    136 |    64 | regions, sixteen 4-byte words           |
use vstd::prelude::*;
use vstd::bytes::*;
use vstd::slice::*;
use crate::identity::{Identity, UpdateAuthority};
use crate::regions::{spec_canonical, spec_flat_len_sum, spec_unflatten};

verus! {

/// Size in bytes of the header.
pub const HEADER_SIZE: usize = 200;

/// The tag that opens every history buffer, read as a little-endian word
/// (its bytes are the first eight of `SHA256(b"account:AccountHistory")`).
pub const ACCOUNT_HISTORY_TAG: u64 = 0xcd19_f809_1726_9bf2;

/// Bytes taken by the clock at the start of each element.
pub const CLOCK_SIZE: u32 = 8;

/// Configuration and mutable state of a history.
#[derive(Debug, Clone, Copy)]
pub struct AccountHistoryHeader {
    /// The watched account: only its data is recorded.
    pub associated_account: Identity,
    /// The only identity that may close the history.
    pub close_authority: Identity,
    /// Who may push new entries.
    pub update_authority: UpdateAuthority,
    /// Number of elements the history holds.
    pub capacity: u32,
    /// Bytes per element, the clock included.
    pub data_element_size: u32,
    /// Number of successful pushes so far.
    pub num_updates: u64,
    /// A new entry's clock must be at least this far past the latest one.
    pub min_slot_delay: u32,
    /// Closing may complete only this many clock ticks after it began.
    pub min_close_delay: u32,
    /// The clock at which closing began, if it has.
    pub close_initiated: Option<u64>,
    /// The regions, in flat form.
    pub data_regions: [u32; 16],
}

/// The clock word stored for a close state (zero when closing has not begun).
pub open spec fn spec_close_word(c: Option<u64>) -> u64 {
    match c {
        Some(v) => v,
        None => 0,
    }
}

/// The 32 bytes stored for an update authority.
pub open spec fn spec_authority_bytes(a: UpdateAuthority) -> Seq<u8> {
    match a {
        UpdateAuthority::Unrestricted => Seq::new(32, |i: int| 0u8),
        UpdateAuthority::Restricted(id) => id@,
    }
}

/// Sixteen words, each as four little-endian bytes.
pub open spec fn spec_words_bytes(w: Seq<u32>) -> Seq<u8>
    decreases w.len(),
{
    if w.len() == 0 {
        Seq::empty()
    } else {
        spec_words_bytes(w.drop_last()) + spec_u32_to_le_bytes(w.last())
    }
}

/// Reads a little-endian `u32` at `off`.
pub open spec fn spec_u32_at(b: Seq<u8>, off: int) -> u32 {
    spec_u32_from_le_bytes(b.subrange(off, off + 4))
}

/// Reads a little-endian `u64` at `off`.
pub open spec fn spec_u64_at(b: Seq<u8>, off: int) -> u64 {
    spec_u64_from_le_bytes(b.subrange(off, off + 8))
}

/// The region words stored in header bytes.
pub open spec fn spec_region_words(b: Seq<u8>) -> Seq<u32> {
    Seq::new(16, |j: int| spec_u32_at(b, 136 + 4 * j))
}

impl AccountHistoryHeader {
    /// The bytes of this header, in the layout above.
    pub open spec fn spec_bytes(self) -> Seq<u8> {
        spec_u64_to_le_bytes(ACCOUNT_HISTORY_TAG) + self.associated_account@ + self.close_authority@
            + spec_authority_bytes(self.update_authority) + spec_u32_to_le_bytes(self.capacity)
            + spec_u32_to_le_bytes(self.data_element_size) + spec_u64_to_le_bytes(self.num_updates)
            + spec_u32_to_le_bytes(self.min_slot_delay) + spec_u32_to_le_bytes(self.min_close_delay)
            + spec_u64_to_le_bytes(spec_close_word(self.close_initiated)) + spec_words_bytes(
            self.data_regions@,
        )
    }

    /// The regions of this header as a list.
    pub open spec fn spec_regions(self) -> Seq<(u32, u32)> {
        spec_unflatten(self.data_regions@)
    }

    /// A header that describes a usable history: a positive capacity,
    /// canonical regions, an element size of the clock plus the region
    /// lengths, and a layout that each field can be stored in unambiguously.
    pub open spec fn wf(self) -> bool {
        &&& self.capacity > 0
        &&& spec_canonical(self.data_regions@)
        &&& self.data_element_size == CLOCK_SIZE + spec_flat_len_sum(self.data_regions@, 8)
        &&& (self.close_initiated matches Some(c) ==> c > 0)
        &&& (self.update_authority matches UpdateAuthority::Restricted(id) ==> !id.spec_is_zero())
    }
}

/// The header fields that a byte buffer holds describe a usable history of
/// exactly the buffer's length.
pub open spec fn spec_layout_ok(b: Seq<u8>) -> bool {
    let words = spec_region_words(b);
    let cap = spec_u32_at(b, 104);
    let size = spec_u32_at(b, 108);
    &&& b.len() >= HEADER_SIZE
    &&& spec_u64_at(b, 0) == ACCOUNT_HISTORY_TAG
    &&& cap > 0
    &&& spec_canonical(words)
    &&& size == CLOCK_SIZE + spec_flat_len_sum(words, 8)
    &&& b.len() - HEADER_SIZE == cap as int * size as int
}

proof fn lemma_words_bytes_len(w: Seq<u32>)
    ensures
        spec_words_bytes(w).len() == 4 * w.len(),
    decreases w.len(),
{
    lemma_auto_spec_u32_to_from_le_bytes();
    if w.len() > 0 {
        lemma_words_bytes_len(w.drop_last());
    }
}

/// The header is exactly `HEADER_SIZE` bytes long.
pub proof fn lemma_header_bytes_len(h: AccountHistoryHeader)
    ensures
        h.spec_bytes().len() == HEADER_SIZE,
{
    lemma_auto_spec_u32_to_from_le_bytes();
    lemma_auto_spec_u64_to_from_le_bytes();
    lemma_words_bytes_len(h.data_regions@);
    match h.update_authority {
        UpdateAuthority::Unrestricted => {},
        UpdateAuthority::Restricted(id) => {},
    }
}

proof fn lemma_region_words_bytes(b: Seq<u8>, k: nat)
    requires
        b.len() >= HEADER_SIZE,
        k <= 16,
    ensures
        spec_words_bytes(spec_region_words(b).take(k as int)) == b.subrange(136, 136 + 4 * k as int),
    decreases k,
{
    lemma_auto_spec_u32_to_from_le_bytes();
    if k > 0 {
        lemma_region_words_bytes(b, (k - 1) as nat);
        let w = spec_region_words(b).take(k as int);
        assert(w.drop_last() =~= spec_region_words(b).take(k - 1));
        let off = 136 + 4 * (k - 1);
        assert(b.subrange(off, off + 4).len() == 4);
        assert(spec_u32_to_le_bytes(w.last()) == b.subrange(off, off + 4));
        assert(b.subrange(136, 136 + 4 * k as int) =~= b.subrange(136, off) + b.subrange(off, off + 4));
    }
}

fn append_words(out: &mut Vec<u8>, words: &[u32; 16])
    ensures
        final(out)@ == old(out)@ + spec_words_bytes(words@),
{
    let ghost start = out@;
    let mut i: usize = 0;
    while i < 16
        invariant
            i <= 16,
            out@ == start + spec_words_bytes(words@.take(i as int)),
        decreases 16 - i,
    {
        let mut w = u32_to_le_bytes(words[i]);
        proof {
            assert(words@.take(i + 1).drop_last() =~= words@.take(i as int));
        }
        out.append(&mut w);
        i = i + 1;
    }
    assert(words@.take(16) =~= words@);
}

fn append_identity(out: &mut Vec<u8>, id: &Identity)
    ensures
        final(out)@ == old(out)@ + id@,
{
    let ghost start = out@;
    let mut i: usize = 0;
    while i < 32
        invariant
            i <= 32,
            out@ == start + id@.take(i as int),
        decreases 32 - i,
    {
        out.push(id.bytes[i]);
        proof {
            assert(id@.take(i + 1) =~= id@.take(i as int).push(id@[i as int]));
        }
        i = i + 1;
    }
    assert(id@.take(32) =~= id@);
}

fn read_identity(b: &[u8], off: usize) -> (r: Identity)
    requires
        off + 32 <= b@.len(),
    ensures
        r@ == b@.subrange(off as int, off + 32),
{
    let _len = b.len(); // bounds the length by usize::MAX for the offsets below
    let mut bytes = [0u8; 32];
    let mut i: usize = 0;
    while i < 32
        invariant
            i <= 32,
            off + 32 <= b@.len() == _len,
            forall|j: int| 0 <= j < i ==> bytes@[j] == b@[off + j],
        decreases 32 - i,
    {
        bytes[i] = b[off + i];
        i = i + 1;
    }
    let r = Identity { bytes };
    assert(r@ =~= b@.subrange(off as int, off + 32));
    r
}

fn read_u32_at(b: &[u8], off: usize) -> (r: u32)
    requires
        off + 4 <= b@.len(),
    ensures
        r == spec_u32_at(b@, off as int),
{
    let _len = b.len(); // bounds the length by usize::MAX for the offsets below
    u32_from_le_bytes(slice_subrange(b, off, off + 4))
}

fn read_u64_at(b: &[u8], off: usize) -> (r: u64)
    requires
        off + 8 <= b@.len(),
    ensures
        r == spec_u64_at(b@, off as int),
{
    let _len = b.len(); // bounds the length by usize::MAX for the offsets below
    u64_from_le_bytes(slice_subrange(b, off, off + 8))
}

impl AccountHistoryHeader {
    /// The bytes of this header.
    pub fn to_bytes(&self) -> (r: Vec<u8>)
        ensures
            r@ == self.spec_bytes(),
            r@.len() == HEADER_SIZE,
    {
        let mut out = u64_to_le_bytes(ACCOUNT_HISTORY_TAG);
        append_identity(&mut out, &self.associated_account);
        append_identity(&mut out, &self.close_authority);
        match self.update_authority {
            UpdateAuthority::Unrestricted => {
                let zero = Identity::zero();
                assert(zero@ =~= spec_authority_bytes(self.update_authority));
                append_identity(&mut out, &zero);
            },
            UpdateAuthority::Restricted(id) => {
                append_identity(&mut out, &id);
            },
        }
        let mut w = u32_to_le_bytes(self.capacity);
        out.append(&mut w);
        let mut w = u32_to_le_bytes(self.data_element_size);
        out.append(&mut w);
        let mut w = u64_to_le_bytes(self.num_updates);
        out.append(&mut w);
        let mut w = u32_to_le_bytes(self.min_slot_delay);
        out.append(&mut w);
        let mut w = u32_to_le_bytes(self.min_close_delay);
        out.append(&mut w);
        let close_word = match self.close_initiated {
            Some(c) => c,
            None => 0,
        };
        let mut w = u64_to_le_bytes(close_word);
        out.append(&mut w);
        append_words(&mut out, &self.data_regions);
        proof {
            lemma_header_bytes_len(*self);
        }
        out
    }

    /// Reads the header fields out of the first `HEADER_SIZE` bytes of `b`.
    ///
    /// An all-zero update authority reads as unrestricted and a zero close
    /// clock as closing not begun. When `b` opens with the tag, the header
    /// read stores back to the same bytes.
    pub fn read_from(b: &[u8]) -> (r: AccountHistoryHeader)
        requires
            b@.len() >= HEADER_SIZE,
        ensures
            r.associated_account@ == b@.subrange(8, 40),
            r.close_authority@ == b@.subrange(40, 72),
            spec_authority_bytes(r.update_authority) == b@.subrange(72, 104),
            r.update_authority matches UpdateAuthority::Restricted(id) ==> !id.spec_is_zero(),
            r.capacity == spec_u32_at(b@, 104),
            r.data_element_size == spec_u32_at(b@, 108),
            r.num_updates == spec_u64_at(b@, 112),
            r.min_slot_delay == spec_u32_at(b@, 120),
            r.min_close_delay == spec_u32_at(b@, 124),
            spec_close_word(r.close_initiated) == spec_u64_at(b@, 128),
            r.close_initiated matches Some(c) ==> c > 0,
            r.data_regions@ == spec_region_words(b@),
            spec_u64_at(b@, 0) == ACCOUNT_HISTORY_TAG ==> r.spec_bytes() == b@.take(
                HEADER_SIZE as int,
            ),
    {
        let associated_account = read_identity(b, 8);
        let close_authority = read_identity(b, 40);
        let upd = read_identity(b, 72);
        let update_authority = if upd.is_zero() {
            assert(upd@ =~= Seq::new(32, |i: int| 0u8));
            UpdateAuthority::Unrestricted
        } else {
            UpdateAuthority::Restricted(upd)
        };
        let close_word = read_u64_at(b, 128);
        let close_initiated = if close_word == 0 {
            None
        } else {
            Some(close_word)
        };
        let mut data_regions = [0u32; 16];
        let mut i: usize = 0;
        while i < 16
            invariant
                i <= 16,
                b@.len() >= HEADER_SIZE,
                forall|j: int| 0 <= j < i ==> data_regions@[j] == spec_u32_at(b@, 136 + 4 * j),
            decreases 16 - i,
        {
            data_regions[i] = read_u32_at(b, 136 + 4 * i);
            i = i + 1;
        }
        assert(data_regions@ =~= spec_region_words(b@));
        let r = AccountHistoryHeader {
            associated_account,
            close_authority,
            update_authority,
            capacity: read_u32_at(b, 104),
            data_element_size: read_u32_at(b, 108),
            num_updates: read_u64_at(b, 112),
            min_slot_delay: read_u32_at(b, 120),
            min_close_delay: read_u32_at(b, 124),
            close_initiated,
            data_regions,
        };
        proof {
            if spec_u64_at(b@, 0) == ACCOUNT_HISTORY_TAG {
                lemma_header_reads_back(b@, r);
            }
        }
        r
    }
}

proof fn lemma_header_reads_back(b: Seq<u8>, r: AccountHistoryHeader)
    requires
        b.len() >= HEADER_SIZE,
        spec_u64_at(b, 0) == ACCOUNT_HISTORY_TAG,
        r.associated_account@ == b.subrange(8, 40),
        r.close_authority@ == b.subrange(40, 72),
        spec_authority_bytes(r.update_authority) == b.subrange(72, 104),
        r.capacity == spec_u32_at(b, 104),
        r.data_element_size == spec_u32_at(b, 108),
        r.num_updates == spec_u64_at(b, 112),
        r.min_slot_delay == spec_u32_at(b, 120),
        r.min_close_delay == spec_u32_at(b, 124),
        spec_close_word(r.close_initiated) == spec_u64_at(b, 128),
        r.data_regions@ == spec_region_words(b),
    ensures
        r.spec_bytes() == b.take(HEADER_SIZE as int),
{
    lemma_auto_spec_u32_to_from_le_bytes();
    lemma_auto_spec_u64_to_from_le_bytes();
    lemma_region_words_bytes(b, 16);
    assert(spec_region_words(b).take(16) =~= spec_region_words(b));
    assert(b.subrange(0, 8).len() == 8);
    assert(b.subrange(104, 108).len() == 4);
    assert(b.subrange(108, 112).len() == 4);
    assert(b.subrange(112, 120).len() == 8);
    assert(b.subrange(120, 124).len() == 4);
    assert(b.subrange(124, 128).len() == 4);
    assert(b.subrange(128, 136).len() == 8);
    assert(b.take(HEADER_SIZE as int) =~= b.subrange(0, 8) + b.subrange(8, 40) + b.subrange(40, 72)
        + b.subrange(72, 104) + b.subrange(104, 108) + b.subrange(108, 112) + b.subrange(112, 120)
        + b.subrange(120, 124) + b.subrange(124, 128) + b.subrange(128, 136) + b.subrange(
        136,
        200,
    ));
}

impl Default for AccountHistoryHeader {
    /// All-zero identities, unrestricted updates, no regions, zero counts and
    /// delays, closing not begun.
    fn default() -> (r: AccountHistoryHeader)
        ensures
            r.associated_account.spec_is_zero(),
            r.close_authority.spec_is_zero(),
            r.update_authority matches UpdateAuthority::Unrestricted,
            r.capacity == 0,
            r.data_element_size == 0,
            r.num_updates == 0,
            r.min_slot_delay == 0,
            r.min_close_delay == 0,
            r.close_initiated is None,
            r.data_regions@ == Seq::new(16, |i: int| 0u32),
    {
        let r = AccountHistoryHeader {
            associated_account: Identity::zero(),
            close_authority: Identity::zero(),
            update_authority: UpdateAuthority::Unrestricted,
            capacity: 0,
            data_element_size: 0,
            num_updates: 0,
            min_slot_delay: 0,
            min_close_delay: 0,
            close_initiated: None,
            data_regions: [0u32; 16],
        };
        assert(r.data_regions@ =~= Seq::new(16, |i: int| 0u32));
        r
    }
}

proof fn lemma_words_bytes_at(w: Seq<u32>, j: int)
    requires
        0 <= j < w.len(),
    ensures
        spec_words_bytes(w).subrange(4 * j, 4 * j + 4) == spec_u32_to_le_bytes(w[j]),
    decreases w.len(),
{
    lemma_auto_spec_u32_to_from_le_bytes();
    lemma_words_bytes_len(w.drop_last());
    if j < w.len() - 1 {
        lemma_words_bytes_at(w.drop_last(), j);
        assert(spec_words_bytes(w).subrange(4 * j, 4 * j + 4) =~= spec_words_bytes(
            w.drop_last(),
        ).subrange(4 * j, 4 * j + 4));
    } else {
        assert(spec_words_bytes(w).subrange(4 * j, 4 * j + 4) =~= spec_u32_to_le_bytes(w.last()));
    }
}

/// The fields of a stored header read back as they were: what a header's
/// bytes, followed by the element bytes of a well-formed history, hold is a
/// layout that decodes.
pub proof fn lemma_stored_layout(h: AccountHistoryHeader, data: Seq<u8>)
    requires
        h.wf(),
        data.len() == h.capacity as int * h.data_element_size as int,
    ensures
        spec_layout_ok(h.spec_bytes() + data),
        (h.spec_bytes() + data).take(HEADER_SIZE as int) == h.spec_bytes(),
        (h.spec_bytes() + data).skip(HEADER_SIZE as int) == data,
{
    lemma_auto_spec_u32_to_from_le_bytes();
    lemma_auto_spec_u64_to_from_le_bytes();
    lemma_header_bytes_len(h);
    lemma_words_bytes_len(h.data_regions@);
    let hb = h.spec_bytes();
    let b = hb + data;
    match h.update_authority {
        UpdateAuthority::Unrestricted => {},
        UpdateAuthority::Restricted(id) => {},
    }
    assert(b.subrange(0, 8) =~= spec_u64_to_le_bytes(ACCOUNT_HISTORY_TAG));
    assert(b.subrange(104, 108) =~= spec_u32_to_le_bytes(h.capacity));
    assert(b.subrange(108, 112) =~= spec_u32_to_le_bytes(h.data_element_size));
    let words = spec_words_bytes(h.data_regions@);
    assert(b.subrange(136, 200) =~= words);
    assert forall|j: int| 0 <= j < 16 implies #[trigger] spec_region_words(b)[j]
        == h.data_regions@[j] by {
        lemma_words_bytes_at(h.data_regions@, j);
        assert(b.subrange(136 + 4 * j, 136 + 4 * j + 4) =~= words.subrange(4 * j, 4 * j + 4));
    }
    assert(spec_region_words(b) =~= h.data_regions@);
    assert(b.take(HEADER_SIZE as int) =~= hb);
    assert(b.skip(HEADER_SIZE as int) =~= data);
}

proof fn lemma_identity_ext(a: Identity, b: Identity)
    requires
        a@ == b@,
    ensures
        a == b,
{
    assert(a.bytes =~= b.bytes) by {
        assert forall|i: int| 0 <= i < 32 implies a.bytes[i] == b.bytes[i] by {
            assert(a@[i] == b@[i]);
        }
    }
}

/// Different well-formed headers are stored as different bytes: a header is
/// determined by its bytes.
pub proof fn lemma_header_bytes_injective(h1: AccountHistoryHeader, h2: AccountHistoryHeader)
    requires
        h1.wf(),
        h2.wf(),
        h1.spec_bytes() == h2.spec_bytes(),
    ensures
        h1 == h2,
{
    broadcast use vstd::array::axiom_array_ext_equal;

    lemma_auto_spec_u32_to_from_le_bytes();
    lemma_auto_spec_u64_to_from_le_bytes();
    lemma_header_bytes_len(h1);
    lemma_header_bytes_len(h2);
    lemma_words_bytes_len(h1.data_regions@);
    lemma_words_bytes_len(h2.data_regions@);
    let b = h1.spec_bytes();
    match h1.update_authority {
        UpdateAuthority::Unrestricted => {},
        UpdateAuthority::Restricted(id) => {},
    }
    match h2.update_authority {
        UpdateAuthority::Unrestricted => {},
        UpdateAuthority::Restricted(id) => {},
    }
    assert(b.subrange(8, 40) =~= h1.associated_account@);
    assert(b.subrange(8, 40) =~= h2.associated_account@);
    lemma_identity_ext(h1.associated_account, h2.associated_account);
    assert(b.subrange(40, 72) =~= h1.close_authority@);
    assert(b.subrange(40, 72) =~= h2.close_authority@);
    lemma_identity_ext(h1.close_authority, h2.close_authority);
    assert(b.subrange(72, 104) =~= spec_authority_bytes(h1.update_authority));
    assert(b.subrange(72, 104) =~= spec_authority_bytes(h2.update_authority));
    match (h1.update_authority, h2.update_authority) {
        (UpdateAuthority::Restricted(a), UpdateAuthority::Restricted(c)) => {
            lemma_identity_ext(a, c);
        },
        (UpdateAuthority::Restricted(a), UpdateAuthority::Unrestricted) => {
            assert(a.spec_is_zero());
        },
        (UpdateAuthority::Unrestricted, UpdateAuthority::Restricted(c)) => {
            assert(c.spec_is_zero());
        },
        _ => {},
    }
    assert(b.subrange(104, 108) =~= spec_u32_to_le_bytes(h1.capacity));
    assert(b.subrange(104, 108) =~= spec_u32_to_le_bytes(h2.capacity));
    assert(b.subrange(108, 112) =~= spec_u32_to_le_bytes(h1.data_element_size));
    assert(b.subrange(108, 112) =~= spec_u32_to_le_bytes(h2.data_element_size));
    assert(b.subrange(112, 120) =~= spec_u64_to_le_bytes(h1.num_updates));
    assert(b.subrange(112, 120) =~= spec_u64_to_le_bytes(h2.num_updates));
    assert(b.subrange(120, 124) =~= spec_u32_to_le_bytes(h1.min_slot_delay));
    assert(b.subrange(120, 124) =~= spec_u32_to_le_bytes(h2.min_slot_delay));
    assert(b.subrange(124, 128) =~= spec_u32_to_le_bytes(h1.min_close_delay));
    assert(b.subrange(124, 128) =~= spec_u32_to_le_bytes(h2.min_close_delay));
    assert(b.subrange(128, 136) =~= spec_u64_to_le_bytes(spec_close_word(h1.close_initiated)));
    assert(b.subrange(128, 136) =~= spec_u64_to_le_bytes(spec_close_word(h2.close_initiated)));
    let w1 = spec_words_bytes(h1.data_regions@);
    let w2 = spec_words_bytes(h2.data_regions@);
    assert(b.subrange(136, 200) =~= w1);
    assert(b.subrange(136, 200) =~= w2);
    assert(w1 == w2);
    assert forall|j: int| 0 <= j < 16 implies h1.data_regions@[j] == h2.data_regions@[j] by {
        lemma_words_bytes_at(h1.data_regions@, j);
        lemma_words_bytes_at(h2.data_regions@, j);
        assert(spec_u32_to_le_bytes(h1.data_regions@[j]) == spec_u32_to_le_bytes(
            h2.data_regions@[j],
        ));
        assert(spec_u32_from_le_bytes(spec_u32_to_le_bytes(h1.data_regions@[j]))
            == h1.data_regions@[j]);
    }
    assert(h1.data_regions =~= h2.data_regions);
}

} // verus!
