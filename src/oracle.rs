//! A history of oracle prices, kept in a fixed-capacity ring inside the
//! record itself.
use vstd::prelude::*;
use crate::errors::OracleHistoryProgramError;
use crate::identity::Identity;
use crate::svec_modulo::{StackVecModulo, StackVecModuloIterator};
use crate::header::{spec_u32_at, spec_u64_at};
use vstd::bytes::*;
use vstd::slice::*;

verus! {

/// Number of prices an oracle history keeps.
pub const ORACLE_HISTORY_SIZE: usize = 100;

/// A price and the clock at which the oracle published it.
#[derive(Copy, Clone, Debug, PartialEq, Eq, Structural)]
pub struct Price {
    pub price: i64,
    pub slot: u64,
}

impl Default for Price {
    fn default() -> (r: Price)
        ensures
            r == (Price { price: 0, slot: 0 }),
    {
        Price { price: 0, slot: 0 }
    }
}

/// How to read the oracle account.
#[derive(Copy, Clone, Debug, PartialEq, Eq, Structural)]
pub enum OracleType {
    Pyth,
}

impl Default for OracleType {
    fn default() -> (r: OracleType)
        ensures
            r == OracleType::Pyth,
    {
        OracleType::Pyth
    }
}

/// The previous price and its slot held by Pyth price account data, or
/// `None` where the data is not a Pyth price account.
pub uninterp spec fn pyth_prev_price(data: Seq<u8>) -> Option<(i64, u64)>;

/// Relies on `pyth_sdk_solana::state::load_price_account`, which checks the
/// length, magic number, version and account type of a price account; its
/// outcome depends on the bytes alone, and the account's `prev_price` and
/// `prev_slot` are kept. The call reads the account in place and needs 8-byte
/// aligned bytes, so `data` is first copied into a buffer of `u64` words.
#[verifier::external_body]
fn load_pyth_prev_price(data: &[u8]) -> (r: Option<(i64, u64)>)
    ensures
        r == pyth_prev_price(data@),
{
    let mut words = vec![0u64; data.len()];
    let aligned = &mut bytemuck::cast_slice_mut::<u64, u8>(&mut words)[..data.len()];
    aligned.copy_from_slice(data);
    pyth_sdk_solana::state::load_price_account(aligned).ok().map(|a| (a.prev_price, a.prev_slot))
}

/// A history of the prices of one oracle account.
#[derive(Copy, Clone, Debug)]
pub struct OracleHistory {
    associated_oracle: Identity,
    oracle_type: OracleType,
    prices: StackVecModulo<Price, ORACLE_HISTORY_SIZE>,
}

impl OracleHistory {
    /// The oracle account recorded.
    pub closed spec fn oracle(&self) -> Identity {
        self.associated_oracle
    }

    /// How the oracle account is read.
    pub closed spec fn kind(&self) -> OracleType {
        self.oracle_type
    }

    /// The ring of prices.
    pub closed spec fn ring(&self) -> StackVecModulo<Price, ORACLE_HISTORY_SIZE> {
        self.prices
    }

    /// An empty history of the oracle `associated_oracle`; every slot holds a
    /// zero price at slot zero.
    pub fn new(associated_oracle: Identity, oracle_type: OracleType) -> (r: OracleHistory)
        ensures
            r.oracle() == associated_oracle,
            r.kind() == oracle_type,
            r.ring().pushes() == 0,
            r.ring().values() == Seq::new(
                ORACLE_HISTORY_SIZE as nat,
                |i: int| Price { price: 0, slot: 0 },
            ),
    {
        OracleHistory {
            associated_oracle,
            oracle_type,
            prices: StackVecModulo::new(Price { price: 0, slot: 0 }),
        }
    }

    /// A history of `associated_oracle` whose ring is `prices`.
    pub fn from_parts(
        associated_oracle: Identity,
        oracle_type: OracleType,
        prices: StackVecModulo<Price, ORACLE_HISTORY_SIZE>,
    ) -> (r: OracleHistory)
        ensures
            r.oracle() == associated_oracle,
            r.kind() == oracle_type,
            r.ring() == prices,
    {
        OracleHistory { associated_oracle, oracle_type, prices }
    }

    /// How the oracle account is read.
    pub fn oracle_type(&self) -> (r: OracleType)
        ensures
            r == self.kind(),
    {
        self.oracle_type
    }

    /// A copy of the ring of prices.
    pub fn prices(&self) -> (r: StackVecModulo<Price, ORACLE_HISTORY_SIZE>)
        ensures
            r == self.ring(),
    {
        self.prices
    }

    /// The oracle account recorded.
    pub fn associated_oracle(&self) -> (r: Identity)
        ensures
            r == self.oracle(),
    {
        self.associated_oracle
    }

    /// Reads a price out of the data of the oracle account at `address`.
    ///
    /// Fails with `InvalidOracleAddress` when `address` is not the recorded
    /// oracle, and with `InvalidOracleDataPyth` when the data is not a Pyth
    /// price account.
    pub fn get_price(&self, address: Identity, data: &[u8]) -> (r: Result<Price, OracleHistoryProgramError>)
        ensures
            address@ != self.oracle()@ ==> r == Err::<Price, _>(
                OracleHistoryProgramError::InvalidOracleAddress,
            ),
            address@ == self.oracle()@ ==> r == match pyth_prev_price(data@) {
                Some((price, slot)) => Ok(Price { price, slot }),
                None => Err(OracleHistoryProgramError::InvalidOracleDataPyth),
            },
    {
        if address != self.associated_oracle {
            return Err(OracleHistoryProgramError::InvalidOracleAddress);
        }
        match self.oracle_type {
            OracleType::Pyth => match load_pyth_prev_price(data) {
                Some((price, slot)) => Ok(Price { price, slot }),
                None => Err(OracleHistoryProgramError::InvalidOracleDataPyth),
            },
        }
    }

    /// Adds `price` to the history. Fails with `NotNewSlot`, changing
    /// nothing, unless its slot is later than the most recent price's.
    pub fn push_price(&mut self, price: Price) -> (r: Result<(), OracleHistoryProgramError>)
        requires
            old(self).ring().pushes() < u64::MAX,
        ensures
            price.slot <= old(self).ring().spec_most_recent().slot ==> r == Err::<(), _>(
                OracleHistoryProgramError::NotNewSlot,
            ) && *final(self) == *old(self),
            price.slot > old(self).ring().spec_most_recent().slot ==> {
                &&& r is Ok
                &&& final(self).oracle() == old(self).oracle()
                &&& final(self).kind() == old(self).kind()
                &&& final(self).ring().pushes() == old(self).ring().pushes() + 1
                &&& final(self).ring().spec_most_recent() == price
                &&& final(self).ring().newest_first() == seq![price] + old(
                    self,
                ).ring().newest_first().take(final(self).ring().spec_len() - 1)
            },
    {
        if price.slot <= self.prices.most_recent_entry().slot {
            return Err(OracleHistoryProgramError::NotNewSlot);
        }
        self.prices.push(price);
        Ok(())
    }

    /// Reads a price out of the oracle account at `address` and adds it to
    /// the history, failing as [`OracleHistory::get_price`] and
    /// [`OracleHistory::push_price`] do.
    pub fn push(&mut self, address: Identity, data: &[u8]) -> (r: Result<(), OracleHistoryProgramError>)
        requires
            old(self).ring().pushes() < u64::MAX,
        ensures
            match old(self).get_price_spec(address, data@) {
                Err(e) => r == Err::<(), _>(e) && *final(self) == *old(self),
                Ok(price) => if price.slot <= old(self).ring().spec_most_recent().slot {
                    r == Err::<(), _>(OracleHistoryProgramError::NotNewSlot) && *final(self) == *old(
                        self,
                    )
                } else {
                    &&& r is Ok
                    &&& final(self).oracle() == old(self).oracle()
                    &&& final(self).kind() == old(self).kind()
                    &&& final(self).ring().pushes() == old(self).ring().pushes() + 1
                    &&& final(self).ring().spec_most_recent() == price
                    &&& final(self).ring().newest_first() == seq![price] + old(
                        self,
                    ).ring().newest_first().take(final(self).ring().spec_len() - 1)
                },
            },
    {
        let price = match self.get_price(address, data) {
            Ok(p) => p,
            Err(e) => {
                return Err(e);
            },
        };
        self.push_price(price)
    }

    /// What [`OracleHistory::get_price`] returns.
    pub open spec fn get_price_spec(&self, address: Identity, data: Seq<u8>) -> Result<
        Price,
        OracleHistoryProgramError,
    > {
        if address@ != self.oracle()@ {
            Err(OracleHistoryProgramError::InvalidOracleAddress)
        } else {
            match pyth_prev_price(data) {
                Some((price, slot)) => Ok(Price { price, slot }),
                None => Err(OracleHistoryProgramError::InvalidOracleDataPyth),
            }
        }
    }

    /// Number of prices added so far.
    pub fn num_push_calls(&self) -> (r: u64)
        ensures
            r == self.ring().pushes(),
    {
        self.prices.num_push_calls()
    }

    /// The price added last; a zero price before any.
    pub fn most_recent_entry(&self) -> (r: &Price)
        ensures
            *r == self.ring().spec_most_recent(),
    {
        self.prices.most_recent_entry()
    }

    /// The slot of the ring written last.
    pub fn most_recent_index(&self) -> (r: usize)
        ensures
            r == self.ring().pushes() % (ORACLE_HISTORY_SIZE as int),
    {
        self.prices.most_recent_index()
    }

    /// Number of prices held.
    pub fn len(&self) -> (r: usize)
        ensures
            r == self.ring().spec_len(),
    {
        self.prices.len()
    }

    /// The prices, newest first.
    pub fn values(&self) -> (r: StackVecModuloIterator<'_, Price, ORACLE_HISTORY_SIZE>)
        ensures
            r.ring() == self.ring(),
            r.yielded() == 0,
    {
        StackVecModuloIterator::from(&self.prices)
    }
}

impl Default for OracleHistory {
    /// An empty history of the all-zero oracle identity.
    fn default() -> (r: OracleHistory)
        ensures
            r.oracle().spec_is_zero(),
            r.kind() == OracleType::Pyth,
            r.ring().pushes() == 0,
            r.ring().values() == Seq::new(
                ORACLE_HISTORY_SIZE as nat,
                |i: int| Price { price: 0, slot: 0 },
            ),
    {
        OracleHistory::new(Identity::zero(), OracleType::Pyth)
    }
}

/// Bytes of a stored oracle history record: the oracle (32 bytes), the
/// oracle type as a little-endian `u32` (zero for Pyth), 12 bytes of padding,
/// each price slot as its price and slot (little-endian, 8 bytes each), and
/// the push count (8 bytes).
pub const ORACLE_RECORD_SIZE: usize = 1656;

/// Offset of the first price slot in a stored record.
pub const ORACLE_RECORD_PRICES: usize = 48;

/// The price stored in slot `i` of a record.
pub open spec fn spec_price_at(b: Seq<u8>, i: int) -> Price {
    Price {
        price: spec_u64_at(b, ORACLE_RECORD_PRICES + 16 * i) as i64,
        slot: spec_u64_at(b, ORACLE_RECORD_PRICES + 16 * i + 8),
    }
}

/// `b` is a stored record of `h`.
pub open spec fn spec_stores(b: Seq<u8>, h: OracleHistory) -> bool {
    &&& b.len() == ORACLE_RECORD_SIZE
    &&& b.subrange(0, 32) == h.oracle()@
    &&& spec_u32_at(b, 32) == 0
    &&& h.kind() == OracleType::Pyth
    &&& forall|i: int|
        0 <= i < ORACLE_HISTORY_SIZE ==> #[trigger] spec_price_at(b, i) == h.ring().values()[i]
    &&& spec_u64_at(b, ORACLE_RECORD_SIZE - 8) == h.ring().pushes()
}

proof fn lemma_append_keeps(a: Seq<u8>, c: Seq<u8>, lo: int, hi: int)
    requires
        0 <= lo <= hi <= a.len(),
    ensures
        (a + c).subrange(lo, hi) == a.subrange(lo, hi),
{
    assert((a + c).subrange(lo, hi) =~= a.subrange(lo, hi));
}

proof fn lemma_append_word(a: Seq<u8>, x: u64)
    ensures
        spec_u64_at(a + spec_u64_to_le_bytes(x), a.len() as int) == x,
        (a + spec_u64_to_le_bytes(x)).len() == a.len() + 8,
{
    lemma_auto_spec_u64_to_from_le_bytes();
    let b = a + spec_u64_to_le_bytes(x);
    assert(b.subrange(a.len() as int, a.len() as int + 8) =~= spec_u64_to_le_bytes(x));
}

impl OracleHistory {
    /// The stored record of this history.
    pub fn to_bytes(&self) -> (r: Vec<u8>)
        ensures
            spec_stores(r@, *self),
    {
        proof {
            lemma_auto_spec_u32_to_from_le_bytes();
        }
        let mut out: Vec<u8> = Vec::new();
        let mut i: usize = 0;
        while i < 32
            invariant
                i <= 32,
                out@ == self.oracle()@.take(i as int),
            decreases 32 - i,
        {
            out.push(self.associated_oracle.bytes[i]);
            proof {
                assert(self.oracle()@.take(i + 1) =~= self.oracle()@.take(i as int).push(
                    self.oracle()@[i as int],
                ));
            }
            i = i + 1;
        }
        assert(self.oracle()@.take(32) =~= self.oracle()@);
        let kind: u32 = match self.oracle_type {
            OracleType::Pyth => 0,
        };
        let mut w = u32_to_le_bytes(kind);
        let ghost before_kind = out@;
        out.append(&mut w);
        proof {
            assert(out@.subrange(32, 36) =~= spec_u32_to_le_bytes(kind));
            lemma_append_keeps(before_kind, spec_u32_to_le_bytes(kind), 0, 32);
        }
        let mut j: usize = 0;
        while j < 12
            invariant
                j <= 12,
                out@.len() == 36 + j,
                out@.subrange(0, 32) == self.oracle()@,
                spec_u32_at(out@, 32) == 0,
            decreases 12 - j,
        {
            let ghost prev = out@;
            out.push(0u8);
            proof {
                lemma_append_keeps(prev, seq![0u8], 0, 32);
                lemma_append_keeps(prev, seq![0u8], 32, 36);
                assert(prev.push(0u8) == prev + seq![0u8]);
            }
            j = j + 1;
        }
        let slots = self.prices.slots();
        let mut k: usize = 0;
        while k < ORACLE_HISTORY_SIZE
            invariant
                k <= ORACLE_HISTORY_SIZE,
                slots@ == self.ring().values(),
                out@.len() == ORACLE_RECORD_PRICES + 16 * k,
                out@.subrange(0, 32) == self.oracle()@,
                spec_u32_at(out@, 32) == 0,
                forall|m: int| 0 <= m < k ==> #[trigger] spec_price_at(out@, m) == slots@[m],
            decreases ORACLE_HISTORY_SIZE - k,
        {
            let p = slots[k];
            let ghost prev = out@;
            let bits: u64 = #[verifier::truncate] (p.price as u64);
            let mut a = u64_to_le_bytes(bits);
            out.append(&mut a);
            let ghost mid = out@;
            let mut b = u64_to_le_bytes(p.slot);
            out.append(&mut b);
            proof {
                lemma_append_word(prev, bits);
                lemma_append_word(mid, p.slot);
                lemma_append_keeps(mid, spec_u64_to_le_bytes(p.slot), 0, 32);
                lemma_append_keeps(mid, spec_u64_to_le_bytes(p.slot), 32, 36);
                lemma_append_keeps(prev, spec_u64_to_le_bytes(bits), 0, 32);
                lemma_append_keeps(prev, spec_u64_to_le_bytes(bits), 32, 36);
                let at = ORACLE_RECORD_PRICES + 16 * k;
                lemma_append_keeps(mid, spec_u64_to_le_bytes(p.slot), at, at + 8);
                assert(spec_u64_at(out@, at) == bits);
                let x = p.price;
                assert(bits == #[verifier::truncate] (x as u64));
                assert((#[verifier::truncate] (x as u64)) as i64 == x) by (bit_vector);
                assert forall|m: int| 0 <= m < k implies #[trigger] spec_price_at(out@, m)
                    == slots@[m] by {
                    let o = ORACLE_RECORD_PRICES + 16 * m;
                    lemma_append_keeps(prev, spec_u64_to_le_bytes(bits), o, o + 8);
                    lemma_append_keeps(prev, spec_u64_to_le_bytes(bits), o + 8, o + 16);
                    lemma_append_keeps(mid, spec_u64_to_le_bytes(p.slot), o, o + 8);
                    lemma_append_keeps(mid, spec_u64_to_le_bytes(p.slot), o + 8, o + 16);
                    assert(spec_price_at(out@, m) == spec_price_at(prev, m));
                }
                assert(spec_price_at(out@, k as int) == p);
            }
            k = k + 1;
        }
        let ghost prev = out@;
        let mut c = u64_to_le_bytes(self.prices.num_push_calls());
        out.append(&mut c);
        proof {
            let n = self.ring().pushes() as u64;
            lemma_append_word(prev, n);
            lemma_append_keeps(prev, spec_u64_to_le_bytes(n), 0, 32);
            lemma_append_keeps(prev, spec_u64_to_le_bytes(n), 32, 36);
            assert forall|m: int| 0 <= m < ORACLE_HISTORY_SIZE implies #[trigger] spec_price_at(
                out@,
                m,
            ) == self.ring().values()[m] by {
                let o = ORACLE_RECORD_PRICES + 16 * m;
                lemma_append_keeps(prev, spec_u64_to_le_bytes(n), o, o + 8);
                lemma_append_keeps(prev, spec_u64_to_le_bytes(n), o + 8, o + 16);
                assert(spec_price_at(out@, m) == spec_price_at(prev, m));
            }
        }
        out
    }

    /// Reads a stored record; `None` unless `b` is as long as a record and
    /// names a known oracle type.
    pub fn from_bytes(b: &[u8]) -> (r: Option<OracleHistory>)
        ensures
            r is Some <==> b@.len() == ORACLE_RECORD_SIZE && spec_u32_at(b@, 32) == 0,
            r matches Some(h) ==> h.oracle()@ == b@.subrange(0, 32) && h.kind() == OracleType::Pyth
                && h.ring().values() == Seq::new(
                ORACLE_HISTORY_SIZE as nat,
                |i: int| spec_price_at(b@, i),
            ) && h.ring().pushes() == spec_u64_at(b@, ORACLE_RECORD_SIZE - 8),
    {
        if b.len() != ORACLE_RECORD_SIZE {
            return None;
        }
        let kind = u32_from_le_bytes(slice_subrange(b, 32, 36));
        if kind != 0 {
            return None;
        }
        let mut oracle = [0u8; 32];
        let mut i: usize = 0;
        while i < 32
            invariant
                i <= 32,
                b@.len() == ORACLE_RECORD_SIZE,
                forall|j: int| 0 <= j < i ==> oracle@[j] == b@[j],
            decreases 32 - i,
        {
            oracle[i] = b[i];
            i = i + 1;
        }
        let id = Identity::new(oracle);
        assert(id@ =~= b@.subrange(0, 32));
        let mut slots = [Price { price: 0, slot: 0 }; ORACLE_HISTORY_SIZE];
        let mut k: usize = 0;
        while k < ORACLE_HISTORY_SIZE
            invariant
                k <= ORACLE_HISTORY_SIZE,
                b@.len() == ORACLE_RECORD_SIZE,
                forall|m: int| 0 <= m < k ==> slots@[m] == spec_price_at(b@, m),
            decreases ORACLE_HISTORY_SIZE - k,
        {
            let at = ORACLE_RECORD_PRICES + 16 * k;
            let price = u64_from_le_bytes(slice_subrange(b, at, at + 8)) as i64;
            let slot = u64_from_le_bytes(slice_subrange(b, at + 8, at + 16));
            slots[k] = Price { price, slot };
            k = k + 1;
        }
        assert(slots@ =~= Seq::new(ORACLE_HISTORY_SIZE as nat, |i: int| spec_price_at(b@, i)));
        let pushes = u64_from_le_bytes(slice_subrange(b, ORACLE_RECORD_SIZE - 8, ORACLE_RECORD_SIZE));
        Some(
            OracleHistory::from_parts(
                id,
                OracleType::Pyth,
                StackVecModulo::from_parts(slots, pushes),
            ),
        )
    }
}

/// Reading back a stored record gives the history that was stored: whatever
/// [`OracleHistory::from_bytes`] returns for the bytes of `h` is `h`.
pub proof fn lemma_record_round_trip(h: OracleHistory, g: OracleHistory, b: Seq<u8>)
    requires
        spec_stores(b, h),
        g.oracle()@ == b.subrange(0, 32),
        g.kind() == OracleType::Pyth,
        g.ring().values() == Seq::new(ORACLE_HISTORY_SIZE as nat, |i: int| spec_price_at(b, i)),
        g.ring().pushes() == spec_u64_at(b, ORACLE_RECORD_SIZE - 8),
    ensures
        g == h,
{
    broadcast use vstd::array::axiom_array_ext_equal;

    h.ring().lemma_values_len();
    g.ring().lemma_values_len();
    assert forall|i: int| 0 <= i < ORACLE_HISTORY_SIZE implies g.ring().values()[i]
        == h.ring().values()[i] by {
        assert(spec_price_at(b, i) == h.ring().values()[i]);
    }
    assert(g.ring().values() =~= h.ring().values());
    StackVecModulo::lemma_ext(g.ring(), h.ring());
    assert(g.associated_oracle.bytes =~= h.associated_oracle.bytes) by {
        assert forall|i: int| 0 <= i < 32 implies g.associated_oracle.bytes[i]
            == h.associated_oracle.bytes[i] by {
            assert(g.oracle()@[i] == h.oracle()@[i]);
        }
    }
}

} // verus!
