use account_history::errors::OracleHistoryProgramError;
use account_history::identity::Identity;
use account_history::oracle::{OracleHistory, OracleType, Price};
use pyth_sdk_solana::state::{AccountType, PriceAccount, MAGIC, VERSION_2};

const ORACLE_ACCOUNT: [u8; 32] = [0xa5; 32];

fn oracle_data(prev_price: i64, prev_slot: u64) -> Vec<u8> {
    let mut account: PriceAccount = bytemuck::Zeroable::zeroed();
    account.magic = MAGIC;
    account.ver = VERSION_2;
    account.atype = AccountType::Price as u32;
    account.prev_price = prev_price;
    account.prev_slot = prev_slot;
    bytemuck::bytes_of(&account).to_vec()
}

fn history() -> OracleHistory {
    OracleHistory::new(Identity::new(ORACLE_ACCOUNT), OracleType::Pyth)
}

#[test]
fn get_price() {
    let data = oracle_data(4321, 99);
    let mut state = history();
    let price = state.get_price(Identity::new(ORACLE_ACCOUNT), &data).unwrap();
    state.push(Identity::new(ORACLE_ACCOUNT), &data).unwrap();
    assert_eq!(*state.most_recent_entry(), price);
    assert_eq!(price, Price { price: 4321, slot: 99 });
}

#[test]
#[should_panic]
fn get_price_bad_address() {
    let data = oracle_data(4321, 99);
    let state = history();
    let _ = state.get_price(Identity::zero(), &data).unwrap();
}

#[test]
#[should_panic]
fn get_price_not_new_slot() {
    let data = oracle_data(4321, 99);
    let mut state = history();
    state.push(Identity::new(ORACLE_ACCOUNT), &data).unwrap();
    state.push(Identity::new(ORACLE_ACCOUNT), &data).unwrap();
}

#[test]
fn oracle_errors() {
    let state = history();
    assert_eq!(
        state.get_price(Identity::zero(), &oracle_data(1, 1)),
        Err(OracleHistoryProgramError::InvalidOracleAddress)
    );
    assert_eq!(
        state.get_price(Identity::new(ORACLE_ACCOUNT), &[0u8; 16]),
        Err(OracleHistoryProgramError::InvalidOracleDataPyth)
    );
    let mut bad = oracle_data(1, 1);
    bad[0] ^= 0xff;
    assert_eq!(
        state.get_price(Identity::new(ORACLE_ACCOUNT), &bad),
        Err(OracleHistoryProgramError::InvalidOracleDataPyth)
    );
}

#[test]
fn oracle_history_keeps_newest_first() {
    let mut state = history();
    assert_eq!(state.len(), 0);
    for slot in 1..=3u64 {
        state.push(Identity::new(ORACLE_ACCOUNT), &oracle_data(slot as i64 * 100, slot)).unwrap();
    }
    assert_eq!(state.push_price(Price { price: 5, slot: 3 }), Err(OracleHistoryProgramError::NotNewSlot));
    assert_eq!(state.len(), 3);
    assert_eq!(state.most_recent_index(), 3);
    let mut it = state.values();
    let mut seen = Vec::new();
    while let Some(p) = it.next() {
        seen.push(p.slot);
    }
    assert_eq!(seen, vec![3, 2, 1]);
    assert_eq!(state.associated_oracle(), Identity::new(ORACLE_ACCOUNT));
}

#[test]
fn oracle_record_round_trip() {
    let mut state = history();
    for slot in 1..=4u64 {
        state.push(Identity::new(ORACLE_ACCOUNT), &oracle_data(-(slot as i64) * 7, slot)).unwrap();
    }
    let bytes = state.to_bytes();
    assert_eq!(bytes.len(), account_history::oracle::ORACLE_RECORD_SIZE);
    assert_eq!(&bytes[0..32], &ORACLE_ACCOUNT);
    // slot 4 holds the fourth price
    assert_eq!(&bytes[48 + 16 * 4..56 + 16 * 4], &(-28i64).to_le_bytes());
    assert_eq!(&bytes[1648..1656], &4u64.to_le_bytes());
    let back = OracleHistory::from_bytes(&bytes).unwrap();
    assert_eq!(*back.most_recent_entry(), Price { price: -28, slot: 4 });
    assert_eq!(back.len(), 4);
    assert_eq!(back.to_bytes(), bytes);
    let mut bad = bytes.clone();
    bad[32] = 1;
    assert!(OracleHistory::from_bytes(&bad).is_none());
    assert!(OracleHistory::from_bytes(&bytes[1..]).is_none());
}

#[test]
fn get_price_reads_unaligned_data() {
    let data = oracle_data(-55, 321);
    let mut shifted = vec![0u8];
    shifted.extend_from_slice(&data);
    let state = history();
    assert_eq!(
        state.get_price(Identity::new(ORACLE_ACCOUNT), &shifted[1..]),
        Ok(Price { price: -55, slot: 321 })
    );
}
