use std::str::FromStr;

use bitcoin::Address;

use coin_selection::branch_and_bound::BranchAndBoundCoinSelection;
use coin_selection::database::Database;
use coin_selection::error::Error;
use coin_selection::excess::decide_change;
use coin_selection::fee_rate::{vbytes, FeeRate};
use coin_selection::largest_first::LargestFirstCoinSelection;
use coin_selection::oldest_first::OldestFirstCoinSelection;
use coin_selection::output_group::{OutputGroup, TXIN_BASE_WEIGHT};
use coin_selection::selection::{get_selection, get_selection_with_rng};
use coin_selection::single_random_draw::SingleRandomDrawCoinSelection;
use coin_selection::strategy::CoinSelectionAlgorithm;
use coin_selection::types::{
    KeychainKind, LocalUtxo, OutPoint, Script, TxOut, Txid, Utxo, WeightedScript, WeightedUtxo,
};
use coin_selection::waste::{long_term_fee_rate, Waste};

use rand::rngs::StdRng;
use rand::seq::SliceRandom;
use rand::{Rng, SeedableRng};

// n. of items on witness (1WU) + signature len (1WU) + signature and sighash (72WU)
// + pubkey len (1WU) + pubkey (33WU) + script sig len (1 byte, 4WU)
const P2WPKH_SATISFACTION_SIZE: usize = 1 + 1 + 72 + 1 + 33 + 4;

const FEE_AMOUNT: u64 = 50;

struct BlockTime {
    height: u32,
    #[allow(dead_code)]
    timestamp: u64,
}

struct TransactionDetails {
    txid: Txid,
    #[allow(dead_code)]
    received: u64,
    #[allow(dead_code)]
    sent: u64,
    #[allow(dead_code)]
    fee: Option<u64>,
    confirmation_time: Option<BlockTime>,
}

struct MemoryDatabase {
    txs: Vec<(Txid, Option<u32>)>,
}

impl MemoryDatabase {
    fn default() -> Self {
        MemoryDatabase { txs: Vec::new() }
    }

    fn set_tx(&mut self, details: &TransactionDetails) -> Result<(), Error> {
        let height = details.confirmation_time.as_ref().map(|ct| ct.height);
        self.txs.retain(|(txid, _)| *txid != details.txid);
        self.txs.push((details.txid, height));
        Ok(())
    }
}

impl Database for MemoryDatabase {
    fn confirmation_height(&self, txid: &Txid) -> Option<u32> {
        self.txs
            .iter()
            .find(|(known, _)| known == txid)
            .and_then(|(_, height)| *height)
    }
}

fn outpoint_from_str(s: &str) -> OutPoint {
    let outpoint = bitcoin::OutPoint::from_str(s).unwrap();
    OutPoint {
        txid: Txid(bitcoin::hashes::Hash::into_inner(outpoint.txid)),
        vout: outpoint.vout,
    }
}

fn txout_value(u: &Utxo) -> u64 {
    u.txout().value
}

fn utxo(value: u64, index: u32) -> WeightedUtxo {
    assert!(index < 10);
    let outpoint = outpoint_from_str(&format!(
        "000000000000000000000000000000000000000000000000000000000000000{}:0",
        index
    ));
    WeightedUtxo {
        satisfaction_weight: P2WPKH_SATISFACTION_SIZE,
        utxo: Utxo::Local(LocalUtxo {
            outpoint,
            txout: TxOut {
                value,
                script_pubkey: Script::new(),
            },
            keychain: KeychainKind::External,
            is_spent: false,
        }),
    }
}

fn get_test_utxos() -> Vec<WeightedUtxo> {
    vec![
        utxo(100_000, 0),
        utxo(FEE_AMOUNT as u64 - 40, 1),
        utxo(200_000, 2),
    ]
}

fn test_bitcoin_script() -> bitcoin::Script {
    Address::from_str("bc1qxlh2mnc0yqwas76gqq665qkggee5m98t8yskd8")
        .unwrap()
        .script_pubkey()
}

fn get_test_weighted_script() -> WeightedScript {
    let script_p2wpkh = test_bitcoin_script();
    WeightedScript {
        satisfaction_weight: P2WPKH_SATISFACTION_SIZE,
        script_pubkey: Script::from_bytes(script_p2wpkh.to_bytes()).unwrap(),
    }
}

fn setup_database_and_get_oldest_first_test_utxos(
    database: &mut MemoryDatabase,
) -> Vec<WeightedUtxo> {
    // ensure utxos are from different tx
    let utxo1 = utxo(120_000, 1);
    let utxo2 = utxo(80_000, 2);
    let utxo3 = utxo(300_000, 3);

    // add tx to DB so utxos are sorted by blocktime asc
    // utxos will be selected by the following order
    // utxo1(blockheight 1) -> utxo2(blockheight 2), utxo3 (blockheight 3)
    // timestamp are all set as the same to ensure that only block height is used in sorting
    let utxo1_tx_details = TransactionDetails {
        txid: utxo1.utxo.outpoint().txid,
        received: 1,
        sent: 0,
        fee: None,
        confirmation_time: Some(BlockTime {
            height: 1,
            timestamp: 1231006505,
        }),
    };

    let utxo2_tx_details = TransactionDetails {
        txid: utxo2.utxo.outpoint().txid,
        received: 1,
        sent: 0,
        fee: None,
        confirmation_time: Some(BlockTime {
            height: 2,
            timestamp: 1231006505,
        }),
    };

    let utxo3_tx_details = TransactionDetails {
        txid: utxo3.utxo.outpoint().txid,
        received: 1,
        sent: 0,
        fee: None,
        confirmation_time: Some(BlockTime {
            height: 3,
            timestamp: 1231006505,
        }),
    };

    database.set_tx(&utxo1_tx_details).unwrap();
    database.set_tx(&utxo2_tx_details).unwrap();
    database.set_tx(&utxo3_tx_details).unwrap();

    vec![utxo1, utxo2, utxo3]
}

fn random_utxo_template(value: u64) -> WeightedUtxo {
    WeightedUtxo {
        satisfaction_weight: P2WPKH_SATISFACTION_SIZE,
        utxo: Utxo::Local(LocalUtxo {
            outpoint: outpoint_from_str(
                "ebd9813ecebc57ff8f30797de7c205e3c7498ca950ea4341ee51a685ff2fa30a:0",
            ),
            txout: TxOut {
                value,
                script_pubkey: Script::new(),
            },
            keychain: KeychainKind::External,
            is_spent: false,
        }),
    }
}

fn generate_random_utxos(rng: &mut StdRng, utxos_number: usize) -> Vec<WeightedUtxo> {
    let mut res = Vec::new();
    for _ in 0..utxos_number {
        res.push(random_utxo_template(rng.gen_range(0, 200000000)));
    }
    res
}

fn generate_same_value_utxos(utxos_value: u64, utxos_number: usize) -> Vec<WeightedUtxo> {
    let utxo = random_utxo_template(utxos_value);
    vec![utxo; utxos_number]
}

fn generate_utxos_of_values(utxos_values: Vec<u64>) -> Vec<WeightedUtxo> {
    utxos_values
        .into_iter()
        .map(|value| random_utxo_template(value))
        .collect()
}

fn sum_random_utxos(mut rng: &mut StdRng, utxos: &mut Vec<WeightedUtxo>) -> u64 {
    let utxos_picked_len = rng.gen_range(2, utxos.len() / 2);
    utxos.shuffle(&mut rng);
    utxos[..utxos_picked_len]
        .iter()
        .map(|u| txout_value(&u.utxo))
        .sum()
}

fn timing_cost_of(utxos: &[OutputGroup]) -> i64 {
    utxos.iter().fold(0, |acc, utxo| {
        let fee: i64 = utxo.fee as i64;
        let long_term_fee: i64 = long_term_fee_rate()
            .fee_wu(TXIN_BASE_WEIGHT + utxo.weighted_utxo.satisfaction_weight)
            as i64;

        acc + fee - long_term_fee
    })
}

#[test]
fn test_largest_first_coin_selection_success() {
    let fee_rate = FeeRate::from_sat_per_vb(1);
    let utxos = get_test_utxos();
    let database = MemoryDatabase::default();
    let target_amount = 250_000 + FEE_AMOUNT;
    let weighted_drain_script = get_test_weighted_script();

    let result = get_selection(
        LargestFirstCoinSelection::default(),
        &database,
        utxos,
        vec![],
        fee_rate,
        target_amount,
        &weighted_drain_script,
    )
    .unwrap();

    assert_eq!(result.selected.len(), 3);
    assert_eq!(result.selected_amount(), 300_010);
    assert_eq!(result.fee_amount, 204);
}

#[test]
fn test_largest_first_coin_selection_use_only_necessary() {
    let fee_rate = FeeRate::from_sat_per_vb(1);
    let utxos = get_test_utxos();
    let database = MemoryDatabase::default();
    let target_amount = 20_000 + FEE_AMOUNT;
    let weighted_drain_script = get_test_weighted_script();

    let result = get_selection(
        LargestFirstCoinSelection::default(),
        &database,
        vec![],
        utxos,
        fee_rate,
        target_amount,
        &weighted_drain_script,
    )
    .unwrap();

    assert_eq!(result.selected.len(), 1);
    assert_eq!(result.selected_amount(), 200_000);
    assert_eq!(result.fee_amount, 68);
}

#[test]
#[should_panic(expected = "InsufficientFunds")]
fn test_largest_first_coin_selection_insufficient_funds() {
    let fee_rate = FeeRate::from_sat_per_vb(1);
    let utxos = get_test_utxos();
    let database = MemoryDatabase::default();
    let target_amount = 500_000 + FEE_AMOUNT;
    let weighted_drain_script = get_test_weighted_script();

    get_selection(
        LargestFirstCoinSelection::default(),
        &database,
        vec![],
        utxos,
        fee_rate,
        target_amount,
        &weighted_drain_script,
    )
    .unwrap();
}

#[test]
#[should_panic(expected = "InsufficientFunds")]
fn test_largest_first_coin_selection_insufficient_funds_high_fees() {
    let fee_rate = FeeRate::from_sat_per_vb(1000);
    let utxos = get_test_utxos();
    let database = MemoryDatabase::default();
    let target_amount = 250_000 + FEE_AMOUNT;
    let weighted_drain_script = get_test_weighted_script();

    get_selection(
        LargestFirstCoinSelection::default(),
        &database,
        vec![],
        utxos,
        fee_rate,
        target_amount,
        &weighted_drain_script,
    )
    .unwrap();
}

#[test]
fn test_oldest_first_coin_selection_success() {
    let fee_rate = FeeRate::from_sat_per_vb(1);
    let mut database = MemoryDatabase::default();
    let utxos = setup_database_and_get_oldest_first_test_utxos(&mut database);
    let target_amount = 180_000 + FEE_AMOUNT;
    let weighted_drain_script = get_test_weighted_script();

    let result = get_selection(
        OldestFirstCoinSelection::default(),
        &database,
        vec![],
        utxos,
        fee_rate,
        target_amount,
        &weighted_drain_script,
    )
    .unwrap();

    assert_eq!(result.selected.len(), 2);
    assert_eq!(result.selected_amount(), 200_000);
    assert_eq!(result.fee_amount, 136);
}

#[test]
fn test_oldest_first_coin_selection_utxo_not_in_db_will_be_selected_last() {
    // ensure utxos are from different tx
    let utxo1 = utxo(120_000, 1);
    let utxo2 = utxo(80_000, 2);
    let utxo3 = utxo(300_000, 3);

    let mut database = MemoryDatabase::default();

    // add tx to DB so utxos are sorted by blocktime asc
    // utxos will be selected by the following order
    // utxo1(blockheight 1) -> utxo2(blockheight 2), utxo3 (not exist in DB)
    // timestamp are all set as the same to ensure that only block height is used in sorting
    let utxo1_tx_details = TransactionDetails {
        txid: utxo1.utxo.outpoint().txid,
        received: 1,
        sent: 0,
        fee: None,
        confirmation_time: Some(BlockTime {
            height: 1,
            timestamp: 1231006505,
        }),
    };

    let utxo2_tx_details = TransactionDetails {
        txid: utxo2.utxo.outpoint().txid,
        received: 1,
        sent: 0,
        fee: None,
        confirmation_time: Some(BlockTime {
            height: 2,
            timestamp: 1231006505,
        }),
    };

    database.set_tx(&utxo1_tx_details).unwrap();
    database.set_tx(&utxo2_tx_details).unwrap();

    let fee_rate = FeeRate::from_sat_per_vb(1);
    let utxos = vec![utxo3, utxo1, utxo2];
    let target_amount = 180_000 + FEE_AMOUNT;
    let weighted_drain_script = get_test_weighted_script();

    let result = get_selection(
        OldestFirstCoinSelection::default(),
        &database,
        vec![],
        utxos,
        fee_rate,
        target_amount,
        &weighted_drain_script,
    )
    .unwrap();

    assert_eq!(result.selected.len(), 2);
    assert_eq!(result.selected_amount(), 200_000);
    assert_eq!(result.fee_amount, 136);
}

#[test]
fn test_oldest_first_coin_selection_use_all() {
    let mut database = MemoryDatabase::default();
    let utxos = setup_database_and_get_oldest_first_test_utxos(&mut database);
    let fee_rate = FeeRate::from_sat_per_vb(1);
    let target_amount = 20_000 + FEE_AMOUNT;
    let weighted_drain_script = get_test_weighted_script();

    let result = get_selection(
        OldestFirstCoinSelection::default(),
        &database,
        utxos,
        vec![],
        fee_rate,
        target_amount,
        &weighted_drain_script,
    )
    .unwrap();

    assert_eq!(result.selected.len(), 3);
    assert_eq!(result.selected_amount(), 500_000);
    assert_eq!(result.fee_amount, 204);
}

#[test]
fn test_oldest_first_coin_selection_use_only_necessary() {
    let mut database = MemoryDatabase::default();
    let utxos = setup_database_and_get_oldest_first_test_utxos(&mut database);
    let fee_rate = FeeRate::from_sat_per_vb(1);
    let target_amount = 20_000 + FEE_AMOUNT;
    let weighted_drain_script = get_test_weighted_script();

    let result = get_selection(
        OldestFirstCoinSelection::default(),
        &database,
        vec![],
        utxos,
        fee_rate,
        target_amount,
        &weighted_drain_script,
    )
    .unwrap();

    assert_eq!(result.selected.len(), 1);
    assert_eq!(result.selected_amount(), 120_000);
    assert_eq!(result.fee_amount, 68);
}

#[test]
#[should_panic(expected = "InsufficientFunds")]
fn test_oldest_first_coin_selection_insufficient_funds() {
    let mut database = MemoryDatabase::default();
    let utxos = setup_database_and_get_oldest_first_test_utxos(&mut database);
    let fee_rate = FeeRate::from_sat_per_vb(1);
    let target_amount = 600_000 + FEE_AMOUNT;
    let weighted_drain_script = get_test_weighted_script();

    get_selection(
        OldestFirstCoinSelection::default(),
        &database,
        vec![],
        utxos,
        fee_rate,
        target_amount,
        &weighted_drain_script,
    )
    .unwrap();
}

#[test]
#[should_panic(expected = "InsufficientFunds")]
fn test_oldest_first_coin_selection_insufficient_funds_high_fees() {
    let mut database = MemoryDatabase::default();
    let utxos = setup_database_and_get_oldest_first_test_utxos(&mut database);
    let target_amount: u64 = utxos
        .iter()
        .map(|wu| txout_value(&wu.utxo))
        .sum::<u64>()
        - 50;
    let fee_rate = FeeRate::from_sat_per_vb(1000);
    let weighted_drain_script = get_test_weighted_script();

    get_selection(
        OldestFirstCoinSelection::default(),
        &database,
        vec![],
        utxos,
        fee_rate,
        target_amount,
        &weighted_drain_script,
    )
    .unwrap();
}

#[test]
fn test_bnb_coin_selection_success() {
    // In this case bnb won't find a suitable match and single random draw will
    // select three outputs
    let utxos = generate_same_value_utxos(100_000, 20);
    let database = MemoryDatabase::default();
    let target_amount = 250_000 + FEE_AMOUNT;
    let fee_rate = FeeRate::from_sat_per_vb(1);
    let weighted_drain_script = get_test_weighted_script();

    let result = get_selection(
        BranchAndBoundCoinSelection::default(),
        &database,
        vec![],
        utxos,
        fee_rate,
        target_amount,
        &weighted_drain_script,
    )
    .unwrap();

    assert_eq!(result.selected.len(), 3);
    assert_eq!(result.selected_amount(), 300_000);
    assert_eq!(result.fee_amount, 204);
}

#[test]
fn test_bnb_coin_selection_required_are_enough() {
    let utxos = get_test_utxos();
    let database = MemoryDatabase::default();
    let target_amount = 20_000 + FEE_AMOUNT;
    let fee_rate = FeeRate::from_sat_per_vb(1);
    let weighted_drain_script = get_test_weighted_script();

    let result = get_selection(
        BranchAndBoundCoinSelection::default(),
        &database,
        utxos.clone(),
        utxos,
        fee_rate,
        target_amount,
        &weighted_drain_script,
    )
    .unwrap();

    assert_eq!(result.selected.len(), 3);
    assert_eq!(result.selected_amount(), 300_010);
    assert_eq!(result.fee_amount, 204);
}

#[test]
fn test_bnb_coin_selection_optional_are_enough() {
    let utxos = get_test_utxos();
    let database = MemoryDatabase::default();
    let target_amount = 299756 + FEE_AMOUNT;
    let fee_rate = FeeRate::from_sat_per_vb(1);
    let weighted_drain_script = get_test_weighted_script();

    let result = get_selection(
        BranchAndBoundCoinSelection::default(),
        &database,
        vec![],
        utxos,
        fee_rate,
        target_amount,
        &weighted_drain_script,
    )
    .unwrap();

    assert_eq!(result.selected.len(), 2);
    assert_eq!(result.selected_amount(), 300_000);
    assert_eq!(result.fee_amount, 136);
}

#[test]
fn test_bnb_coin_selection_required_not_enough() {
    let utxos = get_test_utxos();
    let database = MemoryDatabase::default();

    let required = vec![utxos[0].clone()];
    let mut optional = utxos[1..].to_vec();
    optional.push(utxo(500_000, 3));

    // Defensive assertions, for sanity and in case someone changes the test utxos vector.
    let amount: u64 = required.iter().map(|u| txout_value(&u.utxo)).sum();
    assert_eq!(amount, 100_000);
    let amount: u64 = optional.iter().map(|u| txout_value(&u.utxo)).sum();
    assert!(amount > 150_000);

    let target_amount = 150_000 + FEE_AMOUNT;
    let fee_rate = FeeRate::from_sat_per_vb(1);
    let weighted_drain_script = get_test_weighted_script();

    // branch and bound finds nothing in range here, so the draw decides: fix its seed
    let seed = [0; 32];
    let mut rng: StdRng = SeedableRng::from_seed(seed);

    let result = get_selection_with_rng(
        BranchAndBoundCoinSelection::default(),
        &database,
        required,
        optional,
        fee_rate,
        target_amount,
        &weighted_drain_script,
        &mut rng,
    )
    .unwrap();

    assert_eq!(result.selected.len(), 2);
    assert_eq!(result.selected_amount(), 300_000);
    assert_eq!(result.fee_amount, 136);
}

#[test]
#[should_panic(expected = "InsufficientFunds")]
fn test_bnb_coin_selection_insufficient_funds() {
    let utxos = get_test_utxos();
    let database = MemoryDatabase::default();
    let target_amount = 500_000 + FEE_AMOUNT;
    let fee_rate = FeeRate::from_sat_per_vb(1);
    let weighted_drain_script = get_test_weighted_script();

    get_selection(
        BranchAndBoundCoinSelection::default(),
        &database,
        vec![],
        utxos,
        fee_rate,
        target_amount,
        &weighted_drain_script,
    )
    .unwrap();
}

#[test]
#[should_panic(expected = "InsufficientFunds")]
fn test_bnb_coin_selection_insufficient_funds_high_fees() {
    let utxos = get_test_utxos();
    let database = MemoryDatabase::default();
    let target_amount = 250_000 + FEE_AMOUNT;
    let fee_rate = FeeRate::from_sat_per_vb(1000);
    let weighted_drain_script = get_test_weighted_script();

    get_selection(
        BranchAndBoundCoinSelection::default(),
        &database,
        vec![],
        utxos,
        fee_rate,
        target_amount,
        &weighted_drain_script,
    )
    .unwrap();
}

#[test]
fn test_bnb_coin_selection_check_fee_rate() {
    let utxos = get_test_utxos();
    let database = MemoryDatabase::default();
    let target_amount = 99932; // first utxo's effective value
    let fee_rate = FeeRate::from_sat_per_vb(1);
    let weighted_drain_script = get_test_weighted_script();

    let result = get_selection(
        BranchAndBoundCoinSelection::new(0),
        &database,
        vec![],
        utxos,
        fee_rate,
        target_amount,
        &weighted_drain_script,
    )
    .unwrap();

    assert_eq!(result.selected.len(), 1);
    assert_eq!(result.selected_amount(), 100_000);
    let input_size = vbytes(TXIN_BASE_WEIGHT + P2WPKH_SATISFACTION_SIZE);
    // the final fee rate should be exactly the same as the fee rate given
    assert!((1.0 - (result.fee_amount as f32 / input_size as f32)).abs() < f32::EPSILON);
}

#[test]
fn test_bnb_coin_selection_exact_match() {
    let seed = [0; 32];
    let mut rng: StdRng = SeedableRng::from_seed(seed);
    let database = MemoryDatabase::default();
    let weighted_drain_script = get_test_weighted_script();

    for _i in 0..200 {
        let mut optional_utxos = generate_random_utxos(&mut rng, 16);
        let fee_rate = FeeRate::from_sat_per_vb(0);
        let target_amount = sum_random_utxos(&mut rng, &mut optional_utxos);

        let result = get_selection(
            BranchAndBoundCoinSelection::new(0),
            &database,
            vec![],
            optional_utxos,
            fee_rate,
            target_amount,
            &weighted_drain_script,
        )
        .unwrap();

        assert_eq!(result.selected_amount(), target_amount);
    }
}

#[test]
#[should_panic(expected = "BnBNoExactMatch")]
fn test_bnb_function_no_exact_match() {
    let database = MemoryDatabase::default();
    let fee_rate = FeeRate::from_sat_per_vb(10);
    let utxos = get_test_utxos();
    let optional_utxos: Vec<OutputGroup> = utxos
        .iter()
        .map(|u| OutputGroup::new(u, fee_rate))
        .collect();
    let available_value = optional_utxos.iter().map(|x| x.effective_value).sum();

    let size_of_change = 31;
    let target_amount = 20_000 + FEE_AMOUNT;
    BranchAndBoundCoinSelection::new(size_of_change)
        .coin_select(
            &database,
            optional_utxos,
            fee_rate,
            target_amount,
            available_value,
        )
        .unwrap();
}

#[test]
#[should_panic(expected = "BnBTotalTriesExceeded")]
fn test_bnb_function_tries_exceeded() {
    let database = MemoryDatabase::default();
    let fee_rate = FeeRate::from_sat_per_vb(10);
    let utxos = generate_same_value_utxos(100_000, 100_000);
    let optional_utxos: Vec<OutputGroup> = utxos
        .iter()
        .map(|u| OutputGroup::new(u, fee_rate))
        .collect();
    let available_value = optional_utxos.iter().map(|x| x.effective_value).sum();

    let size_of_change = 31;
    let target_amount = 20_000 + FEE_AMOUNT;

    BranchAndBoundCoinSelection::new(size_of_change)
        .coin_select(
            &database,
            optional_utxos,
            fee_rate,
            target_amount,
            available_value,
        )
        .unwrap();
}

// The match won't be exact but still in the range
#[test]
fn test_bnb_function_almost_exact_match_with_fees() {
    let database = MemoryDatabase::default();
    let fee_rate = FeeRate::from_sat_per_vb(1);
    let size_of_change = 31;
    let cost_of_change = size_of_change as f32 * (fee_rate.as_sat_per_kvb() as f32 / 1000.0);

    let utxos: Vec<_> = generate_same_value_utxos(50_000, 10);

    // 2*(value of 1 utxo)  - 2*(1 utxo fees with 1.0sat/vbyte fee rate) -
    // cost_of_change + 5.
    let target_amount = 2 * 50_000 - 2 * 67 - cost_of_change.ceil() as i64 + 5;
    let weighted_drain_script = get_test_weighted_script();

    let result = get_selection(
        BranchAndBoundCoinSelection::new(size_of_change),
        &database,
        vec![],
        utxos,
        fee_rate,
        target_amount as u64,
        &weighted_drain_script,
    )
    .unwrap();

    assert_eq!(result.fee_amount, 136);
    assert_eq!(result.selected_amount(), 100_000);
}

#[test]
fn test_bnb_function_exact_match_more_utxos() {
    let database = MemoryDatabase::default();
    let seed = [0; 32];
    let mut rng: StdRng = SeedableRng::from_seed(seed);
    let fee_rate = FeeRate::from_sat_per_vb(0);

    for _ in 0..200 {
        let utxos = generate_random_utxos(&mut rng, 40);
        let optional_utxos: Vec<_> = utxos
            .iter()
            .map(|u| OutputGroup::new(u, fee_rate))
            .collect();
        let available_value = optional_utxos.iter().map(|x| x.effective_value).sum();

        let target_amount =
            optional_utxos[3].effective_value + optional_utxos[23].effective_value;

        let (selected_utxos, _) = BranchAndBoundCoinSelection::new(0)
            .coin_select(
                &database,
                optional_utxos,
                fee_rate,
                // fee rate is zero so effective value can't be negative
                target_amount as u64,
                available_value,
            )
            .unwrap();
        let selected_amount: u64 = selected_utxos
            .iter()
            .map(|og| txout_value(&og.weighted_utxo.utxo))
            .sum();
        assert_eq!(selected_amount, target_amount as u64);
    }
}

#[test]
fn test_single_random_draw_function_success() {
    let database = MemoryDatabase::default();
    let seed = [0; 32];
    let mut rng: StdRng = SeedableRng::from_seed(seed);
    let mut utxos = generate_random_utxos(&mut rng, 300);
    let target_amount = sum_random_utxos(&mut rng, &mut utxos) + FEE_AMOUNT;

    let fee_rate = FeeRate::from_sat_per_vb(1);
    let weighted_drain_script = get_test_weighted_script();

    let result = get_selection(
        SingleRandomDrawCoinSelection,
        &database,
        vec![],
        utxos,
        fee_rate,
        target_amount,
        &weighted_drain_script,
    )
    .unwrap();

    assert!(result.selected_amount() > target_amount);
    assert_eq!(result.fee_amount, (result.selected.len() * 68) as u64);
}

#[test]
fn test_bnb_exclude_negative_effective_value() {
    let utxos = get_test_utxos();
    let database = MemoryDatabase::default();
    let fee_rate = FeeRate::from_sat_per_vb(10);
    let weighted_drain_script = get_test_weighted_script();
    let target_amount = 500_000;

    let err = get_selection(
        BranchAndBoundCoinSelection::default(),
        &database,
        vec![],
        utxos,
        fee_rate,
        target_amount,
        &weighted_drain_script,
    )
    .unwrap_err();

    assert!(matches!(
        err,
        Error::InsufficientFunds {
            available: 300_000,
            ..
        }
    ));
}

#[test]
fn test_bnb_include_negative_effective_value_when_required() {
    let utxos = get_test_utxos();
    let database = MemoryDatabase::default();
    let fee_rate = FeeRate::from_sat_per_vb(10);
    let target_amount = 500_000;
    let weighted_drain_script = get_test_weighted_script();

    let (required, optional) = utxos
        .into_iter()
        .partition(|u| matches!(u, WeightedUtxo { utxo, .. } if utxo.txout().value < 1000));

    let err = get_selection(
        BranchAndBoundCoinSelection::default(),
        &database,
        required,
        optional,
        fee_rate,
        target_amount,
        &weighted_drain_script,
    )
    .unwrap_err();

    assert!(matches!(
        err,
        Error::InsufficientFunds {
            available: 300_010,
            ..
        }
    ));
}

#[test]
fn test_bnb_sum_of_effective_value_negative() {
    let utxos = get_test_utxos();
    let database = MemoryDatabase::default();
    let fee_rate = FeeRate::from_sat_per_vb(10);
    let target_amount = 500_000;
    let weighted_drain_script = get_test_weighted_script();

    let err = get_selection(
        BranchAndBoundCoinSelection::default(),
        &database,
        utxos,
        vec![],
        fee_rate,
        target_amount,
        &weighted_drain_script,
    )
    .unwrap_err();

    assert!(matches!(
        err,
        Error::InsufficientFunds {
            available: 300_010,
            ..
        }
    ));
}

#[test]
fn test_calculate_waste_with_change_output() {
    let fee_rate = long_term_fee_rate();
    let selected = generate_utxos_of_values(vec![100_000_000, 200_000_000]);
    let weighted_drain_script = get_test_weighted_script();
    let drain_script = &weighted_drain_script.script_pubkey;
    let drain_satisfaction_weight = weighted_drain_script.satisfaction_weight;
    let remaining_amount = 2 * test_bitcoin_script().dust_value().as_sat();

    let utxos: Vec<OutputGroup<'_>> = selected
        .iter()
        .map(|u| OutputGroup::new(u, fee_rate))
        .collect();

    let excess = decide_change(remaining_amount, fee_rate, drain_script);

    let drain_output_len =
        bitcoin::consensus::encode::serialize(&test_bitcoin_script()).len() + 8usize;
    let change_output_fee = fee_rate.fee_vb(drain_output_len);
    let change_input_fee =
        long_term_fee_rate().fee_wu(TXIN_BASE_WEIGHT + weighted_drain_script.satisfaction_weight);

    let cost_of_change = change_output_fee + change_input_fee;

    let timing_cost: i64 = timing_cost_of(&utxos);

    let waste = Waste::calculate(&utxos, drain_satisfaction_weight, &excess).unwrap();

    assert_eq!(waste, Waste(timing_cost + cost_of_change as i64));
}

#[test]
fn test_calculate_waste_without_change() {
    let fee_rate = FeeRate::from_sat_per_vb(11);
    let selected = generate_utxos_of_values(vec![100_000_000]);
    let target = 99_999_000;
    let weighted_drain_script = get_test_weighted_script();
    let drain_script = &weighted_drain_script.script_pubkey;
    let drain_satisfaction_weight = weighted_drain_script.satisfaction_weight;

    let utxos: Vec<OutputGroup<'_>> = selected
        .iter()
        .map(|u| OutputGroup::new(u, fee_rate))
        .collect();

    //selected_effective_value: selected amount with fee discount for the selected utxos
    let selected_effective_value: i64 =
        utxos.iter().fold(0, |acc, utxo| acc + utxo.effective_value);

    // excess should always be greater or equal to zero
    let remaining_amount = (selected_effective_value - target as i64) as u64;

    let excess = decide_change(remaining_amount, fee_rate, drain_script);

    let utxo_fee_diff: i64 = timing_cost_of(&utxos);

    let waste = Waste::calculate(&utxos, drain_satisfaction_weight, &excess).unwrap();

    assert_eq!(waste, Waste(utxo_fee_diff + remaining_amount as i64));
}

#[test]
fn test_calculate_waste_with_negative_timing_cost() {
    let fee_rate = FeeRate::from_sat_per_kvb(
        long_term_fee_rate().as_sat_per_kvb() - FeeRate::from_sat_per_vb(2).as_sat_per_kvb(),
    );
    let selected = generate_utxos_of_values(vec![200_000_000]);

    let weighted_drain_script = get_test_weighted_script();
    let drain_script = &weighted_drain_script.script_pubkey;
    let drain_satisfaction_weight = weighted_drain_script.satisfaction_weight;

    let remaining_amount = 0;
    let excess = decide_change(remaining_amount, fee_rate, drain_script);

    let utxos: Vec<OutputGroup<'_>> = selected
        .iter()
        .map(|u| OutputGroup::new(u, fee_rate))
        .collect();

    let timing_cost: i64 = timing_cost_of(&utxos);

    let waste = Waste::calculate(&utxos, drain_satisfaction_weight, &excess).unwrap();

    assert!(timing_cost < 0);
    assert_eq!(waste, Waste(timing_cost));
}

#[test]
fn test_calculate_waste_with_no_timing_cost_and_no_creation_cost() {
    let fee_rate = long_term_fee_rate();
    let selected = generate_utxos_of_values(vec![200_000_000]);
    let utxos: Vec<OutputGroup<'_>> = selected
        .iter()
        .map(|u| OutputGroup::new(u, fee_rate))
        .collect();

    let weighted_drain_script = get_test_weighted_script();
    let drain_script = &weighted_drain_script.script_pubkey;
    let drain_satisfaction_weight = weighted_drain_script.satisfaction_weight;

    let remaining_amount = 0;
    let excess = decide_change(remaining_amount, fee_rate, drain_script);

    let waste = Waste::calculate(&utxos, drain_satisfaction_weight, &excess).unwrap();

    // There shouldn't be any waste if there is no timing_cost nor creation_cost
    assert_eq!(waste, Waste(0));
}
