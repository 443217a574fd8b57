use account_history::address::account_history_address;
use account_history::errors::AccountHistoryProgramError;
use account_history::header::{AccountHistoryHeader, HEADER_SIZE};
use account_history::history::{AccountHistoryRaw, AccountHistoryRawIterator, AccountHistoryRawReverseIterator};
use account_history::identity::{Identity, UpdateAuthority};
use account_history::regions::{sanitize_data_regions, unflatten_data_regions};

const ELEM_SIZE: usize = 24usize;
const CAPACITY: usize = 5usize;

fn key(b: u8) -> Identity {
    Identity::new([b; 32])
}

fn header(capacity: u32, element_size: u32, regions: [u32; 16], min_slot_delay: u32) -> AccountHistoryHeader {
    AccountHistoryHeader {
        associated_account: key(1),
        close_authority: key(2),
        update_authority: UpdateAuthority::Unrestricted,
        capacity,
        data_element_size: element_size,
        num_updates: 0,
        min_slot_delay,
        min_close_delay: 0,
        close_initiated: None,
        data_regions: regions,
    }
}

/// Two regions: [0..8] and [16..24].
fn two_regions() -> [u32; 16] {
    let mut r = [0u32; 16];
    r[1] = 8;
    r[2] = 16;
    r[3] = 8;
    r
}

fn mock_buffer(min_slot_delay: u32) -> Vec<u8> {
    let h = header(CAPACITY as u32, ELEM_SIZE as u32, two_regions(), min_slot_delay);
    [h.to_bytes(), vec![0u8; CAPACITY * ELEM_SIZE]].concat()
}

fn account_data(a: u64, b: u64) -> Vec<u8> {
    [a.to_le_bytes(), [0u8; 8], b.to_le_bytes(), [0u8; 8]].concat()
}

/// (clock, first region as i64, second region as u64)
fn price(e: &[u8]) -> (u64, i64, u64) {
    (
        u64::from_le_bytes(e[0..8].try_into().unwrap()),
        i64::from_le_bytes(e[8..16].try_into().unwrap()),
        u64::from_le_bytes(e[16..24].try_into().unwrap()),
    )
}

fn collect(vec: &AccountHistoryRaw) -> Vec<Vec<u8>> {
    let mut out = Vec::new();
    let mut it = AccountHistoryRawIterator::from(vec);
    while let Some(e) = it.next() {
        out.push(e.to_vec());
    }
    out
}

fn collect_rev(vec: &AccountHistoryRaw) -> Vec<Vec<u8>> {
    let mut out = Vec::new();
    let mut it = AccountHistoryRawReverseIterator::from(vec);
    while let Some(e) = it.next() {
        out.push(e.to_vec());
    }
    out
}

#[test]
fn state_iteration() {
    let mock_data = mock_buffer(0);
    let mut vec = AccountHistoryRaw::from_buffer(&mock_data).unwrap();
    vec.push(&account_data(10, 20), 1).unwrap();
    vec.push(&account_data(11, 22), 2).unwrap();
    vec.push(&account_data(12, 24), 3).unwrap();
    vec.push(&account_data(13, 26), 4).unwrap();
    // len check
    assert_eq!(4, vec.len());

    let mut j = 13i64;
    for i in collect(&vec) {
        let p = price(&i);
        assert_eq!(p.1, j);
        assert_eq!(p.2, j as u64 * 2);
        j -= 1;
    }
    assert_eq!(j, 9);
}

#[test]
fn state_push() {
    let mock_data = mock_buffer(1);
    let mut vec = AccountHistoryRaw::from_buffer(&mock_data).unwrap();
    assert_eq!(0, vec.len());
    assert_eq!(price(vec.most_recent_entry()), (0, 0, 0));
    vec.push(&account_data(5, 6), 1).unwrap();
    assert_eq!(price(vec.most_recent_entry()), (1, 5, 6));
    assert_eq!(1, vec.len());
    assert_eq!(1, vec.num_updates());
}

#[test]
fn mod_iteration() {
    let mock_data = mock_buffer(1);
    let mut vec = AccountHistoryRaw::from_buffer(&mock_data).unwrap();
    // Check that iterating an empty account does nothing
    assert_eq!(collect(&vec).len(), 0);
    // Push four elements
    vec.push(&account_data(10, 20), 1).unwrap();
    vec.push(&account_data(11, 22), 2).unwrap();
    vec.push(&account_data(12, 24), 3).unwrap();
    vec.push(&account_data(13, 26), 4).unwrap();
    // len check
    assert_eq!(4, vec.len());

    // Check that iterating a populated account history works
    let mut j = 13i64;
    for i in collect(&vec) {
        let p = price(&i);
        assert_eq!(p.1, j);
        assert_eq!(p.2, j as u64 * 2);
        j -= 1;
    }
    assert_eq!(j, 9);

    // Push two more elements
    vec.push(&account_data(14, 28), 5).unwrap();
    vec.push(&account_data(15, 30), 6).unwrap();

    // len check should now return 5
    assert_eq!(5, vec.len());
    // Should always return last pushed value
    let p = price(vec.most_recent_entry());
    assert_eq!(p.0, 6);
    assert_eq!(p.1, 15);
    assert_eq!(p.2, 30);

    // Decoding the buffer again gives the same history
    let history = AccountHistoryRaw::from_buffer(&vec.to_buffer()).unwrap();
    assert_eq!(5, history.len());
    let p = price(history.most_recent_entry());
    assert_eq!(p.0, 6);
    assert_eq!(p.1, 15);
    assert_eq!(p.2, 30);
}

#[test]
fn five_slots_two_regions_iterate_both_ways() {
    let regions = [(0u32, 8u32), (16, 8)];
    let mut vec = AccountHistoryRaw::initialize(
        5, &regions, None, None, key(1), key(2), None, &account_data(10, 20), 1,
    )
    .unwrap();
    assert_eq!(vec.header().data_element_size, 24);
    vec.update(key(9), key(1), &account_data(11, 22), 2).unwrap();
    vec.update(key(9), key(1), &account_data(12, 24), 3).unwrap();
    vec.update(key(9), key(1), &account_data(13, 26), 4).unwrap();
    assert_eq!(vec.len(), 4);
    assert_eq!(price(vec.most_recent_entry()), (4, 13, 26));
    let seen: Vec<(u64, i64, u64)> = collect(&vec).iter().map(|e| price(e)).collect();
    assert_eq!(seen, vec![(4, 13, 26), (3, 12, 24), (2, 11, 22), (1, 10, 20)]);
    let rev: Vec<(u64, i64, u64)> = collect_rev(&vec).iter().map(|e| price(e)).collect();
    assert_eq!(rev, vec![(1, 10, 20), (2, 11, 22), (3, 12, 24), (4, 13, 26)]);
}

#[test]
fn most_recent_index_cycles_through_three_slots() {
    let mut data = vec![0u8; 72];
    let h = header(3, 16, {
        let mut r = [0u32; 16];
        r[0] = 64;
        r[1] = 8;
        r
    }, 1);
    let buf = [h.to_bytes(), vec![0u8; 3 * 16]].concat();
    let mut vec = AccountHistoryRaw::from_buffer(&buf).unwrap();
    assert_eq!(vec.most_recent_index(), 0);
    for i in 0..8u64 {
        data[64..72].copy_from_slice(&(100 + i).to_le_bytes());
        vec.push(&data, i + 1).unwrap();
        assert_eq!(vec.most_recent_index(), ((1 + i) % 3) as usize);
        let e = vec.most_recent_entry();
        assert_eq!(u64::from_le_bytes(e[0..8].try_into().unwrap()), i + 1);
        assert_eq!(u64::from_le_bytes(e[8..16].try_into().unwrap()), 100 + i);
    }
}

#[test]
fn ring_overwrites_first_slot_after_capacity_plus_one() {
    let mock_data = mock_buffer(1);
    let mut vec = AccountHistoryRaw::from_buffer(&mock_data).unwrap();
    for c in 1..=(CAPACITY as u64 + 1) {
        vec.push(&account_data(c, 2 * c), c).unwrap();
    }
    assert_eq!(vec.len(), CAPACITY);
    // the first push wrote slot 1; the sixth overwrote it
    assert_eq!(price(vec.index(1)), (6, 6, 12));
    let clocks: Vec<u64> = collect(&vec).iter().map(|e| price(e).0).collect();
    assert_eq!(clocks, vec![6, 5, 4, 3, 2]);
    let clocks: Vec<u64> = collect_rev(&vec).iter().map(|e| price(e).0).collect();
    assert_eq!(clocks, vec![2, 3, 4, 5, 6]);
}

#[test]
fn push_rejects_clock_too_close() {
    let mock_data = mock_buffer(3);
    let mut vec = AccountHistoryRaw::from_buffer(&mock_data).unwrap();
    vec.push(&account_data(1, 1), 3).unwrap();
    assert_eq!(vec.push(&account_data(1, 1), 5), Err(AccountHistoryProgramError::NotNewSlot));
    assert_eq!(vec.num_updates(), 1);
    assert_eq!(vec.push(&account_data(1, 1), 6), Ok(()));
}

#[test]
fn close_lifecycle() {
    let regions = [(0u32, 8u32)];
    let authority = key(2);
    let mut vec = AccountHistoryRaw::initialize(
        4, &regions, Some(1), Some(10), key(1), authority, None, &[1u8; 8], 100,
    )
    .unwrap();
    assert_eq!(vec.resolve_close(authority, 500), Err(AccountHistoryProgramError::CloseNotInitiated));
    assert_eq!(vec.initiate_close(key(3), 200), Err(AccountHistoryProgramError::NotCloseAuthority));
    vec.initiate_close(authority, 200).unwrap();
    assert_eq!(vec.header().close_initiated, Some(200));
    assert_eq!(
        vec.update(key(1), key(1), &[2u8; 8], 300),
        Err(AccountHistoryProgramError::AccountBeingClosed)
    );
    assert_eq!(vec.push(&[2u8; 8], 300), Err(AccountHistoryProgramError::AccountBeingClosed));
    assert_eq!(vec.resolve_close(authority, 209), Err(AccountHistoryProgramError::CannotCloseYet));
    assert_eq!(vec.resolve_close(key(3), 210), Err(AccountHistoryProgramError::NotCloseAuthority));
    assert_eq!(vec.resolve_close(authority, 210), Ok(()));
}

#[test]
fn update_checks_account_and_authority() {
    let regions = [(0u32, 8u32)];
    let mut vec = AccountHistoryRaw::initialize(
        4, &regions, None, None, key(1), key(2), Some(key(7)), &[1u8; 8], 1,
    )
    .unwrap();
    assert_eq!(vec.header().update_authority.permits(&key(7)), true);
    assert_eq!(vec.update(key(7), key(5), &[2u8; 8], 2), Err(AccountHistoryProgramError::NotCorrectAccount));
    assert_eq!(vec.update(key(8), key(1), &[2u8; 8], 2), Err(AccountHistoryProgramError::NotUpdateAuthority));
    assert_eq!(vec.update(key(7), key(1), &[2u8; 8], 2), Ok(()));
    assert_eq!(vec.num_updates(), 2);
}

#[test]
fn initialize_errors() {
    let d = [0u8; 64];
    assert_eq!(
        AccountHistoryRaw::initialize(4, &[(0, 0)], None, None, key(1), key(2), None, &d, 1).err(),
        Some(AccountHistoryProgramError::InvalidDataRegions)
    );
    assert_eq!(
        AccountHistoryRaw::initialize(0, &[(0, 8)], None, None, key(1), key(2), None, &d, 1).err(),
        Some(AccountHistoryProgramError::InvalidDataType)
    );
    assert_eq!(
        AccountHistoryRaw::initialize(4, &[(0, 8)], None, None, key(1), key(2), None, &d, 0).err(),
        Some(AccountHistoryProgramError::NotNewSlot)
    );
    let h = AccountHistoryRaw::initialize(4, &[(0, 8)], Some(0), None, key(1), key(2), Some(Identity::zero()), &d, 0)
        .unwrap();
    assert_eq!(h.num_updates(), 1);
    assert!(matches!(h.header().update_authority, UpdateAuthority::Unrestricted));
    assert_eq!(h.to_buffer().len(), AccountHistoryRaw::size_of(4, &[(0, 8)]).unwrap());
}

#[test]
fn sanitize_rules() {
    let flat = sanitize_data_regions(&[(0, 8), (16, 8)]).unwrap();
    assert_eq!(flat, [0, 8, 16, 8, 0, 0, 0, 0, 0, 0, 0, 0, 0, 0, 0, 0]);
    assert_eq!(unflatten_data_regions(&flat), vec![(0, 8), (16, 8)]);
    assert_eq!(sanitize_data_regions(&[]), Ok([0u32; 16]));
    // adjacent regions are fine
    assert!(sanitize_data_regions(&[(0, 8), (8, 8)]).is_ok());
    // empty region
    assert_eq!(sanitize_data_regions(&[(0, 8), (16, 0)]), Err(AccountHistoryProgramError::InvalidDataRegions));
    // overlap
    assert_eq!(sanitize_data_regions(&[(0, 8), (7, 8)]), Err(AccountHistoryProgramError::InvalidDataRegions));
    // out of order
    assert_eq!(sanitize_data_regions(&[(16, 8), (0, 8)]), Err(AccountHistoryProgramError::InvalidDataRegions));
    // nine regions
    let nine: Vec<(u32, u32)> = (0..9u32).map(|i| (i * 10, 1)).collect();
    assert_eq!(sanitize_data_regions(&nine), Err(AccountHistoryProgramError::InvalidDataRegions));
    let eight: Vec<(u32, u32)> = (0..8u32).map(|i| (i * 10, 1)).collect();
    assert_eq!(unflatten_data_regions(&sanitize_data_regions(&eight).unwrap()), eight);
}

#[test]
fn size_of_counts_header_clock_and_regions() {
    assert_eq!(AccountHistoryRaw::size_of(5, &[(0, 8), (16, 8)]), Some(HEADER_SIZE + 5 * 24));
    assert_eq!(AccountHistoryRaw::size_of(0, &[(0, 8)]), Some(200));
    assert_eq!(AccountHistoryRaw::size_of(u32::MAX, &[(0, u32::MAX), (0, u32::MAX)]), None);
}

#[test]
fn from_buffer_errors() {
    assert_eq!(AccountHistoryRaw::from_buffer(&[0u8; 10]).err(), Some(AccountHistoryProgramError::InvalidDataType));
    let mut buf = mock_buffer(1);
    buf[0] ^= 1;
    assert_eq!(AccountHistoryRaw::from_buffer(&buf).err(), Some(AccountHistoryProgramError::InvalidAccountTag));
    let mut buf = mock_buffer(1);
    buf.push(0);
    assert_eq!(AccountHistoryRaw::from_buffer(&buf).err(), Some(AccountHistoryProgramError::InvalidDataType));
    let bad = header(5, 25, two_regions(), 1);
    let buf = [bad.to_bytes(), vec![0u8; 5 * 25]].concat();
    assert_eq!(AccountHistoryRaw::from_buffer(&buf).err(), Some(AccountHistoryProgramError::InvalidDataType));
    let zero_cap = header(0, 24, two_regions(), 1);
    assert_eq!(
        AccountHistoryRaw::from_buffer(&zero_cap.to_bytes()).err(),
        Some(AccountHistoryProgramError::InvalidDataType)
    );
}

#[test]
fn header_layout() {
    let mut h = header(5, 24, two_regions(), 1);
    h.num_updates = 0x0102;
    h.close_initiated = Some(77);
    h.update_authority = UpdateAuthority::Restricted(key(3));
    let b = h.to_bytes();
    assert_eq!(b.len(), HEADER_SIZE);
    assert_eq!(&b[0..8], &[242, 155, 38, 23, 9, 248, 25, 205]);
    assert_eq!(&b[8..40], &[1u8; 32]);
    assert_eq!(&b[72..104], &[3u8; 32]);
    assert_eq!(&b[104..108], &5u32.to_le_bytes());
    assert_eq!(&b[108..112], &24u32.to_le_bytes());
    assert_eq!(&b[112..120], &0x0102u64.to_le_bytes());
    assert_eq!(&b[128..136], &77u64.to_le_bytes());
    assert_eq!(&b[140..144], &8u32.to_le_bytes());
    let back = AccountHistoryHeader::read_from(&b);
    assert_eq!(back.close_initiated, Some(77));
    assert_eq!(back.num_updates, 0x0102);
    assert_eq!(back.to_bytes(), b);
}

#[test]
fn address_is_derived_from_seed() {
    let (a, bump) = account_history_address([7u8; 32]).unwrap();
    let (b, bump2) = account_history_address([7u8; 32]).unwrap();
    assert_eq!(a, b);
    assert_eq!(bump, bump2);
    let (c, _) = account_history_address([8u8; 32]).unwrap();
    assert_ne!(a, c);
    assert_ne!(a.bytes, [7u8; 32]);
}

#[test]
fn default_header_is_blank() {
    let h = AccountHistoryHeader::default();
    assert!(h.associated_account.is_zero());
    assert!(h.close_authority.is_zero());
    assert_eq!(h.capacity, 0);
    assert_eq!(h.close_initiated, None);
    assert_eq!(h.data_regions, [0u32; 16]);
    // a zero capacity is no usable history
    assert_eq!(
        AccountHistoryRaw::from_buffer(&h.to_bytes()).err(),
        Some(AccountHistoryProgramError::InvalidDataType)
    );
    assert!(!key(1).is_zero());
}

#[test]
fn refusals_need_no_watched_data() {
    let regions = [(0u32, 8u32), (16, 8)];
    let mut vec = AccountHistoryRaw::initialize(
        4, &regions, None, None, key(1), key(2), Some(key(7)), &account_data(1, 2), 1,
    )
    .unwrap();
    // wrong account and wrong signer are refused whatever data is handed in
    assert_eq!(vec.update_error(key(7), key(5), 2), Some(AccountHistoryProgramError::NotCorrectAccount));
    assert_eq!(vec.update(key(7), key(5), &[], 2), Err(AccountHistoryProgramError::NotCorrectAccount));
    assert_eq!(vec.update(key(8), key(1), &[], 2), Err(AccountHistoryProgramError::NotUpdateAuthority));
    // a clock that is too early is refused before any byte is read
    assert_eq!(vec.push_error(1), Some(AccountHistoryProgramError::NotNewSlot));
    assert_eq!(vec.push(&[], 1), Err(AccountHistoryProgramError::NotNewSlot));
    assert_eq!(vec.update_error(key(7), key(1), 2), None);
    // closing at clock zero is refused for anyone but the close authority
    assert_eq!(vec.initiate_close(key(3), 0), Err(AccountHistoryProgramError::NotCloseAuthority));
    vec.initiate_close(key(2), 5).unwrap();
    assert_eq!(vec.push_error(9), Some(AccountHistoryProgramError::AccountBeingClosed));
    assert_eq!(vec.push(&[], 9), Err(AccountHistoryProgramError::AccountBeingClosed));
    assert_eq!(vec.update(key(7), key(1), &[], 9), Err(AccountHistoryProgramError::AccountBeingClosed));
    assert_eq!(vec.num_updates(), 1);
}

#[test]
fn initialize_refusals_need_no_watched_data() {
    assert_eq!(
        AccountHistoryRaw::initialize_error(4, &[(0, 8), (4, 8)], None, 1),
        Some(AccountHistoryProgramError::InvalidDataRegions)
    );
    assert_eq!(
        AccountHistoryRaw::initialize(4, &[(0, 8), (4, 8)], None, None, key(1), key(2), None, &[], 1).err(),
        Some(AccountHistoryProgramError::InvalidDataRegions)
    );
    assert_eq!(
        AccountHistoryRaw::initialize(0, &[(0, 8)], None, None, key(1), key(2), None, &[], 1).err(),
        Some(AccountHistoryProgramError::InvalidDataType)
    );
    assert_eq!(AccountHistoryRaw::initialize_error(4, &[(0, 8)], Some(3), 2), Some(AccountHistoryProgramError::NotNewSlot));
    assert_eq!(AccountHistoryRaw::initialize_error(4, &[(0, 8)], Some(3), 3), None);
}

#[test]
fn default_ring_holds_defaults() {
    let vec = account_history::svec_modulo::StackVecModulo::<u64, 4>::default();
    for i in 0..4 {
        assert_eq!(*vec.index(i), 0);
    }
    let oracle = account_history::oracle::OracleHistory::default();
    assert_eq!(oracle.most_recent_entry().slot, 0);
    assert_eq!(oracle.len(), 0);
}
