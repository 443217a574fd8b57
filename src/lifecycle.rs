//! The operations on a history and the close lifecycle they drive:
//! a history is created active by `initialize`, stays active through
//! `update`, is marked closing by `initiate_close` (after which it never
//! accepts another entry), and is released by `resolve_close` once the
//! close delay has elapsed.
use vstd::prelude::*;
use vstd::bytes::*;
use crate::errors::AccountHistoryProgramError;
use crate::header::{AccountHistoryHeader, CLOCK_SIZE, HEADER_SIZE};
use crate::history::AccountHistoryRaw;
use crate::identity::{Identity, UpdateAuthority};
use crate::regions::{lemma_flat_len_sum, lemma_flatten_round_trip, region_end, sanitize_data_regions, spec_canonical, spec_flat_len_sum, spec_flatten, spec_regions_len_sum, spec_valid_regions};
use crate::history::flat_len_sum;
use crate::ring::{spec_clock_of, spec_pair_end, spec_regions_fit, HistoryView};

verus! {

/// The minimum clock delay when none is given.
pub const DEFAULT_MIN_SLOT_DELAY: u32 = 1;

/// The minimum close delay when none is given.
pub const DEFAULT_MIN_CLOSE_DELAY: u32 = 0;

/// Every region lies inside a buffer of `len` bytes.
pub open spec fn spec_list_fits(regions: Seq<(u32, u32)>, len: int) -> bool {
    forall|i: int| 0 <= i < regions.len() ==> region_end(#[trigger] regions[i]) <= len
}

/// The update authority recorded for an optional identity: none, or the
/// all-zero identity, leaves updates unrestricted.
pub open spec fn spec_update_authority(id: Option<Identity>) -> UpdateAuthority {
    match id {
        Some(i) => if i.spec_is_zero() {
            UpdateAuthority::Unrestricted
        } else {
            UpdateAuthority::Restricted(i)
        },
        None => UpdateAuthority::Unrestricted,
    }
}

/// The error with which `initialize` refuses its arguments, if any; it does
/// not depend on the watched data.
pub open spec fn spec_initialize_error(
    capacity: u32,
    data_regions: Seq<(u32, u32)>,
    min_slot_delay: Option<u32>,
    clock: u64,
) -> Option<AccountHistoryProgramError> {
    let es = CLOCK_SIZE + spec_regions_len_sum(data_regions);
    let delay = match min_slot_delay {
        Some(d) => d,
        None => DEFAULT_MIN_SLOT_DELAY,
    };
    if !(spec_valid_regions(data_regions) && es <= u32::MAX) {
        Some(AccountHistoryProgramError::InvalidDataRegions)
    } else if !(capacity > 0 && HEADER_SIZE + capacity * es <= usize::MAX) {
        Some(AccountHistoryProgramError::InvalidDataType)
    } else if (clock as int) < delay as int {
        Some(AccountHistoryProgramError::NotNewSlot)
    } else {
        None
    }
}

/// `n` zero bytes.
pub open spec fn spec_zeros(n: int) -> Seq<u8> {
    Seq::new(n as nat, |i: int| 0u8)
}

impl HistoryView {
    /// The error with which an update by `signer`, handing in the account
    /// `watched`, at `clock`, is refused, if any. It does not depend on the
    /// watched data.
    pub open spec fn spec_update_error(self, signer: Identity, watched: Identity, clock: u64) -> Option<
        AccountHistoryProgramError,
    > {
        if watched@ != self.header.associated_account@ {
            Some(AccountHistoryProgramError::NotCorrectAccount)
        } else if !self.header.update_authority.spec_permits(signer) {
            Some(AccountHistoryProgramError::NotUpdateAuthority)
        } else {
            self.spec_push_error(clock)
        }
    }

    /// The history after an update by `signer`, who hands in the account
    /// `watched` and its data `src`, at `clock`, or the error that refuses it.
    pub open spec fn spec_update(self, signer: Identity, watched: Identity, src: Seq<u8>, clock: u64) -> Result<
        HistoryView,
        AccountHistoryProgramError,
    > {
        match self.spec_update_error(signer, watched, clock) {
            Some(e) => Err(e),
            None => self.spec_push(src, clock),
        }
    }

    /// The history after `signer` starts closing it at `clock`, or the error
    /// that refuses it.
    pub open spec fn spec_initiate_close(self, signer: Identity, clock: u64) -> Result<
        HistoryView,
        AccountHistoryProgramError,
    > {
        if signer@ != self.header.close_authority@ {
            Err(AccountHistoryProgramError::NotCloseAuthority)
        } else {
            Ok(
                HistoryView {
                    header: AccountHistoryHeader { close_initiated: Some(clock), ..self.header },
                    ..self
                },
            )
        }
    }

    /// Whether `signer` may release the history at `clock`, or the error that
    /// refuses it.
    pub open spec fn spec_resolve_close(self, signer: Identity, clock: u64) -> Result<
        (),
        AccountHistoryProgramError,
    > {
        if signer@ != self.header.close_authority@ {
            Err(AccountHistoryProgramError::NotCloseAuthority)
        } else {
            match self.header.close_initiated {
                None => Err(AccountHistoryProgramError::CloseNotInitiated),
                Some(start) => if (clock as int) < start as int + self.header.min_close_delay as int {
                    Err(AccountHistoryProgramError::CannotCloseYet)
                } else {
                    Ok(())
                },
            }
        }
    }
}

proof fn lemma_zero_clock(e: Seq<u8>)
    requires
        e.len() >= 8,
        forall|i: int| 0 <= i < e.len() ==> e[i] == 0u8,
    ensures
        spec_clock_of(e) == 0,
{
    lemma_auto_spec_u64_to_from_le_bytes();
    spec_u64_to_le_bytes_to_open(0);
    assert(((0u64 & 0xff) as u8) == 0 && (((0u64 >> 8) & 0xff) as u8) == 0 && (((0u64 >> 16)
        & 0xff) as u8) == 0 && (((0u64 >> 24) & 0xff) as u8) == 0 && (((0u64 >> 32) & 0xff) as u8)
        == 0 && (((0u64 >> 40) & 0xff) as u8) == 0 && (((0u64 >> 48) & 0xff) as u8) == 0 && (((0u64
        >> 56) & 0xff) as u8) == 0) by (bit_vector);
    assert(spec_u64_to_le_bytes(0) =~= e.take(8));
}

proof fn lemma_list_fits_flat(regions: Seq<(u32, u32)>, len: int)
    requires
        spec_valid_regions(regions),
        spec_list_fits(regions, len),
        len >= 0,
    ensures
        spec_regions_fit(spec_flatten(regions), len),
{
    let flat = spec_flatten(regions);
    assert forall|k: int| 0 <= k < 8 implies #[trigger] spec_pair_end(flat, k) <= len by {
        if k < regions.len() {
            assert(flat[2 * k] == regions[k].0);
            assert(flat[2 * k + 1] == regions[k].1);
        } else {
            assert(flat[2 * k] == 0);
            assert(flat[2 * k + 1] == 0);
        }
    }
}

fn zeros(n: usize) -> (r: Vec<u8>)
    ensures
        r@ == spec_zeros(n as int),
{
    let mut out: Vec<u8> = Vec::new();
    let mut i: usize = 0;
    while i < n
        invariant
            i <= n,
            out@ =~= spec_zeros(i as int),
        decreases n - i,
    {
        out.push(0u8);
        i = i + 1;
    }
    out
}

/// Validates the regions and computes the element size they give.
fn checked_element_size(data_regions: &[(u32, u32)]) -> (r: Result<
    ([u32; 16], u32),
    AccountHistoryProgramError,
>)
    ensures
        r is Ok <==> spec_valid_regions(data_regions@) && CLOCK_SIZE + spec_regions_len_sum(
            data_regions@,
        ) <= u32::MAX,
        r is Err ==> r == Err::<([u32; 16], u32), _>(AccountHistoryProgramError::InvalidDataRegions),
        r matches Ok((flat, es)) ==> {
            &&& flat@ == spec_flatten(data_regions@)
            &&& es == CLOCK_SIZE + spec_regions_len_sum(data_regions@)
            &&& spec_canonical(flat@)
            &&& es == CLOCK_SIZE + spec_flat_len_sum(flat@, 8)
        },
{
    let flat = match sanitize_data_regions(data_regions) {
        Ok(f) => f,
        Err(e) => {
            return Err(e);
        },
    };
    proof {
        lemma_flatten_round_trip(data_regions@);
        lemma_flat_len_sum(data_regions@, 8);
        assert(data_regions@.take(data_regions@.len() as int) =~= data_regions@);
    }
    let sum = flat_len_sum(&flat);
    if sum > (u32::MAX - CLOCK_SIZE) as u64 {
        return Err(AccountHistoryProgramError::InvalidDataRegions);
    }
    Ok((flat, CLOCK_SIZE + sum as u32))
}

/// A history with `header`, no pushes yet, and `len` zero bytes of elements.
fn blank_history(header: AccountHistoryHeader, len: usize) -> (r: AccountHistoryRaw)
    requires
        header.wf(),
        header.num_updates == 0,
        len == header.capacity as int * header.data_element_size as int,
    ensures
        r@ == (HistoryView { header, data: spec_zeros(len as int) }),
        r@.wf(),
        spec_clock_of(r@.most_recent_entry()) == 0,
{
    let body = zeros(len);
    let history = AccountHistoryRaw::assemble(header, body);
    proof {
        let v = history@;
        assert(v.wf());
        assert(v.most_recent_index() == 0);
        crate::ring::lemma_slot_bounds(0, v.element_size(), v.capacity());
        assert(0 * v.element_size() == 0);
        let e = v.most_recent_entry();
        assert(e.len() == v.element_size());
        assert forall|i: int| 0 <= i < e.len() implies e[i] == 0u8 by {
            assert(e[i] == v.data[i]);
        }
        lemma_zero_clock(e);
    }
    history
}

impl AccountHistoryRaw {
    /// Creates a history watching `watched_account` and records its first
    /// entry from `watched_data` at `clock`.
    ///
    /// The close authority is `payer`; updates are restricted to
    /// `update_authority` when one is given. The minimum delays default to
    /// one clock tick between entries and none before closing.
    ///
    /// Fails with `InvalidDataRegions` when the regions are not valid or
    /// their element size does not fit the header, with `InvalidDataType`
    /// when the capacity is zero or the buffer would not fit in memory, and
    /// with `NotNewSlot` when `clock` is below the minimum clock delay.
    #[verifier::spinoff_prover]
    #[verifier::rlimit(60)]
    pub fn initialize(
        capacity: u32,
        data_regions: &[(u32, u32)],
        min_slot_delay: Option<u32>,
        min_close_delay: Option<u32>,
        watched_account: Identity,
        payer: Identity,
        update_authority: Option<Identity>,
        watched_data: &[u8],
        clock: u64,
    ) -> (r: Result<AccountHistoryRaw, AccountHistoryProgramError>)
        requires
            spec_initialize_error(capacity, data_regions@, min_slot_delay, clock) is None
                ==> spec_list_fits(data_regions@, watched_data@.len() as int),
        ensures
            ({
                let es = CLOCK_SIZE + spec_regions_len_sum(data_regions@);
                let delay = match min_slot_delay {
                    Some(d) => d,
                    None => DEFAULT_MIN_SLOT_DELAY,
                };
                let regions_ok = spec_valid_regions(data_regions@) && es <= u32::MAX;
                let layout_ok = capacity > 0 && HEADER_SIZE + capacity * es <= usize::MAX;
                &&& r == Err::<AccountHistoryRaw, _>(AccountHistoryProgramError::InvalidDataRegions)
                    <==> !regions_ok
                &&& r == Err::<AccountHistoryRaw, _>(AccountHistoryProgramError::InvalidDataType)
                    <==> regions_ok && !layout_ok
                &&& r == Err::<AccountHistoryRaw, _>(AccountHistoryProgramError::NotNewSlot)
                    <==> regions_ok && layout_ok && (clock as int) < delay as int
                &&& r is Ok <==> regions_ok && layout_ok && delay <= clock
                &&& r matches Ok(h) ==> {
                    let fresh = HistoryView {
                        header: AccountHistoryHeader { num_updates: 0, ..h@.header },
                        data: spec_zeros(capacity * es),
                    };
                    &&& h@.wf()
                    &&& h@.header.associated_account == watched_account
                    &&& h@.header.close_authority == payer
                    &&& h@.header.update_authority == spec_update_authority(update_authority)
                    &&& h@.header.capacity == capacity
                    &&& h@.header.data_element_size == es
                    &&& h@.header.min_slot_delay == delay
                    &&& h@.header.min_close_delay == match min_close_delay {
                        Some(d) => d,
                        None => DEFAULT_MIN_CLOSE_DELAY,
                    }
                    &&& h@.header.close_initiated is None
                    &&& h@.header.data_regions@ == spec_flatten(data_regions@)
                    &&& h@.header.num_updates == 1
                    &&& fresh.spec_push(watched_data@, clock) == Ok::<_, AccountHistoryProgramError>(h@)
                }
            }),
    {
        let (flat, es) = match checked_element_size(data_regions) {
            Ok(p) => p,
            Err(e) => {
                return Err(e);
            },
        };
        if capacity == 0 {
            return Err(AccountHistoryProgramError::InvalidDataType);
        }
        let total = match AccountHistoryRaw::size_of(capacity, data_regions) {
            Some(t) => t,
            None => {
                return Err(AccountHistoryProgramError::InvalidDataType);
            },
        };
        let delay = match min_slot_delay {
            Some(d) => d,
            None => DEFAULT_MIN_SLOT_DELAY,
        };
        if (clock as u128) < (delay as u128) {
            return Err(AccountHistoryProgramError::NotNewSlot);
        }
        let authority = match update_authority {
            Some(id) => if id.is_zero() {
                UpdateAuthority::Unrestricted
            } else {
                UpdateAuthority::Restricted(id)
            },
            None => UpdateAuthority::Unrestricted,
        };
        let header = AccountHistoryHeader {
            associated_account: watched_account,
            close_authority: payer,
            update_authority: authority,
            capacity,
            data_element_size: es,
            num_updates: 0,
            min_slot_delay: delay,
            min_close_delay: match min_close_delay {
                Some(d) => d,
                None => DEFAULT_MIN_CLOSE_DELAY,
            },
            close_initiated: None,
            data_regions: flat,
        };
        let mut history = blank_history(header, total - HEADER_SIZE);
        proof {
            lemma_list_fits_flat(data_regions@, watched_data@.len() as int);
        }
        let pushed = history.push(watched_data, clock);
        assert(pushed is Ok);
        Ok(history)
    }

    /// Records an update by `signer`, who hands in the account `watched`
    /// and its current data at `clock`.
    ///
    /// Fails with `NotCorrectAccount` when `watched` is not the watched
    /// account, with `NotUpdateAuthority` when updates are restricted to
    /// another identity, and otherwise as [`AccountHistoryRaw::push`] does.
    pub fn update(&mut self, signer: Identity, watched: Identity, watched_data: &[u8], clock: u64) -> (r:
        Result<(), AccountHistoryProgramError>)
        requires
            old(self)@.wf(),
            old(self)@.spec_update_error(signer, watched, clock) is None ==> spec_regions_fit(
                old(self)@.header.data_regions@,
                watched_data@.len() as int,
            ),
            old(self)@.header.num_updates < u64::MAX,
        ensures
            match old(self)@.spec_update(signer, watched, watched_data@, clock) {
                Ok(v) => r is Ok && final(self)@ == v,
                Err(e) => r == Err::<(), _>(e) && final(self)@ == old(self)@,
            },
            final(self)@.wf(),
    {
        if let Some(e) = self.update_error(signer, watched, clock) {
            return Err(e);
        }
        self.push(watched_data, clock)
    }

    /// The error with which an update by `signer`, handing in the account
    /// `watched`, at `clock`, would be refused, if any: `NotCorrectAccount`,
    /// then `NotUpdateAuthority`, then as [`AccountHistoryRaw::push_error`].
    pub fn update_error(&self, signer: Identity, watched: Identity, clock: u64) -> (r: Option<
        AccountHistoryProgramError,
    >)
        requires
            self@.wf(),
        ensures
            r == self@.spec_update_error(signer, watched, clock),
    {
        let header = self.header();
        if watched != header.associated_account {
            return Some(AccountHistoryProgramError::NotCorrectAccount);
        }
        if !header.update_authority.permits(&signer) {
            return Some(AccountHistoryProgramError::NotUpdateAuthority);
        }
        self.push_error(clock)
    }

    /// The error with which [`AccountHistoryRaw::initialize`] would refuse
    /// these arguments, if any.
    pub fn initialize_error(
        capacity: u32,
        data_regions: &[(u32, u32)],
        min_slot_delay: Option<u32>,
        clock: u64,
    ) -> (r: Option<AccountHistoryProgramError>)
        ensures
            r == spec_initialize_error(capacity, data_regions@, min_slot_delay, clock),
    {
        if let Err(e) = checked_element_size(data_regions) {
            return Some(e);
        }
        if capacity == 0 {
            return Some(AccountHistoryProgramError::InvalidDataType);
        }
        if AccountHistoryRaw::size_of(capacity, data_regions).is_none() {
            return Some(AccountHistoryProgramError::InvalidDataType);
        }
        let delay = match min_slot_delay {
            Some(d) => d,
            None => DEFAULT_MIN_SLOT_DELAY,
        };
        if (clock as u128) < (delay as u128) {
            return Some(AccountHistoryProgramError::NotNewSlot);
        }
        None
    }

    /// Starts closing the history at `clock`. Only the close authority may;
    /// others get `NotCloseAuthority`. From then on every push fails.
    pub fn initiate_close(&mut self, signer: Identity, clock: u64) -> (r: Result<(), AccountHistoryProgramError>)
        requires
            old(self)@.wf(),
            signer@ == old(self)@.header.close_authority@ ==> clock > 0,
        ensures
            match old(self)@.spec_initiate_close(signer, clock) {
                Ok(v) => r is Ok && final(self)@ == v,
                Err(e) => r == Err::<(), _>(e) && final(self)@ == old(self)@,
            },
            final(self)@.wf(),
    {
        let header = self.header();
        if signer != header.close_authority {
            return Err(AccountHistoryProgramError::NotCloseAuthority);
        }
        self.set_close_initiated(clock);
        Ok(())
    }

    /// Checks that `signer` may release the history at `clock`.
    ///
    /// Fails with `NotCloseAuthority` for anyone but the close authority,
    /// with `CloseNotInitiated` when closing has not begun, and with
    /// `CannotCloseYet` while `clock` is below the clock at which closing
    /// began plus the close delay. On success the caller hands the buffer's
    /// resources to the recipient and releases it.
    pub fn resolve_close(&self, signer: Identity, clock: u64) -> (r: Result<(), AccountHistoryProgramError>)
        ensures
            r == self@.spec_resolve_close(signer, clock),
    {
        let header = self.header();
        if signer != header.close_authority {
            return Err(AccountHistoryProgramError::NotCloseAuthority);
        }
        match header.close_initiated {
            None => Err(AccountHistoryProgramError::CloseNotInitiated),
            Some(start) => {
                if (clock as u128) < start as u128 + header.min_close_delay as u128 {
                    Err(AccountHistoryProgramError::CannotCloseYet)
                } else {
                    Ok(())
                }
            },
        }
    }
}

/// The close lifecycle: once closing has begun, every update or push is
/// refused with `AccountBeingClosed`; releasing before the close delay has
/// elapsed is refused with `CannotCloseYet`; releasing a history whose
/// closing never began is refused with `CloseNotInitiated`.
pub proof fn lemma_close_lifecycle(v: HistoryView, authority: Identity, start: u64)
    requires
        v.wf(),
        start > 0,
        authority@ == v.header.close_authority@,
    ensures
        ({
            let w = v.spec_initiate_close(authority, start)->Ok_0;
            &&& v.spec_initiate_close(authority, start) is Ok
            &&& w.wf()
            &&& forall|src: Seq<u8>, clock: u64|
                #[trigger] w.spec_push(src, clock) == Err::<HistoryView, _>(
                    AccountHistoryProgramError::AccountBeingClosed,
                )
            &&& forall|signer: Identity, watched: Identity, src: Seq<u8>, clock: u64|
                watched@ == v.header.associated_account@
                    && v.header.update_authority.spec_permits(signer) ==> #[trigger] w.spec_update(
                    signer,
                    watched,
                    src,
                    clock,
                ) == Err::<HistoryView, _>(AccountHistoryProgramError::AccountBeingClosed)
            &&& forall|clock: u64|
                (clock as int) < start as int + v.header.min_close_delay as int
                    ==> #[trigger] w.spec_resolve_close(authority, clock) == Err::<(), _>(
                    AccountHistoryProgramError::CannotCloseYet,
                )
            &&& forall|clock: u64|
                clock as int >= start as int + v.header.min_close_delay as int
                    ==> #[trigger] w.spec_resolve_close(authority, clock) is Ok
        }),
        v.header.close_initiated is None ==> forall|clock: u64|
            #[trigger] v.spec_resolve_close(authority, clock) == Err::<(), _>(
                AccountHistoryProgramError::CloseNotInitiated,
            ),
{
}

} // verus!
