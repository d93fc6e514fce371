use prism::crypto::hash::H256;
use prism::miner::memory_pool::MemoryPool;
use prism::transaction::{CoinId, Input, Output, Transaction};

fn h(n: u128) -> H256 {
    H256 { hi: 7, lo: n }
}

fn input(n: u128) -> Input {
    Input { coin: CoinId { hash: h(n), index: 0 }, value: 10, owner: h(1000) }
}

fn output(value: u64) -> Output {
    Output { value, recipient: h(2000 + value as u128) }
}

/// The input that spends output `index` of the transaction `hash`.
fn spend(hash: H256, index: u32, output: &Output) -> Input {
    Input { coin: CoinId { hash, index }, value: output.value, owner: output.recipient }
}

fn tx(input: Vec<Input>, output: Vec<Output>) -> Transaction {
    Transaction { input, output, signatures: vec![] }
}

fn hashes(pool: &MemoryPool, n: u32) -> Vec<H256> {
    pool.get_transactions(n).iter().map(|t| t.hash()).collect()
}

#[test]
fn new_pool_is_empty() {
    let pool = MemoryPool::new(3);
    assert_eq!(pool.len(), 0);
    assert!(!pool.contains(&h(1)));
    assert!(pool.get(&h(1)).is_none());
    assert!(!pool.is_double_spend(&[input(1)]));
    assert!(pool.get_transactions(10).is_empty());
}

#[test]
fn inserted_transaction_is_found_by_its_hash() {
    let mut pool = MemoryPool::new(3);
    let t = tx(vec![input(1), input(2)], vec![output(5)]);
    let hash = t.hash();
    pool.insert(t);
    assert_eq!(pool.len(), 1);
    assert!(pool.contains(&hash));
    let entry = pool.get(&hash).unwrap();
    assert_eq!(entry.transaction.input, vec![input(1), input(2)]);
    assert_eq!(entry.transaction.output, vec![output(5)]);
    assert_eq!(entry.storage_index, 0);
    assert_eq!(entry.clone().transaction.hash(), hash);
}

#[test]
fn recorded_inputs_are_double_spends() {
    let mut pool = MemoryPool::new(3);
    pool.insert_hashed(h(50), tx(vec![input(1), input(2)], vec![]));
    assert!(pool.is_double_spend(&[input(1)]));
    assert!(pool.is_double_spend(&[input(9), input(2)]));
    assert!(!pool.is_double_spend(&[input(9)]));
    assert!(!pool.is_double_spend(&[]));
    // an input is the coin together with its value and its owner
    let mut other = input(1);
    other.value = 11;
    assert!(!pool.is_double_spend(&[other]));
    let mut index = input(1);
    index.coin.index = 1;
    assert!(!pool.is_double_spend(&[index]));
    let mut owner = input(1);
    owner.owner = h(1001);
    assert!(!pool.is_double_spend(&[owner]));
}

#[test]
fn pool_holds_no_more_than_its_limit() {
    let mut pool = MemoryPool::new(2);
    for n in 0..5u128 {
        pool.insert_hashed(h(50 + n), tx(vec![input(n)], vec![]));
    }
    assert_eq!(pool.len(), 2);
    assert!(pool.contains(&h(50)));
    assert!(pool.contains(&h(51)));
    assert!(!pool.contains(&h(52)));
    assert!(!pool.is_double_spend(&[input(2)]));
    pool.remove_by_hash(&h(50));
    pool.insert_hashed(h(60), tx(vec![input(9)], vec![]));
    assert_eq!(pool.len(), 2);
    assert!(pool.contains(&h(60)));
}

#[test]
fn pool_without_room_takes_nothing() {
    let mut pool = MemoryPool::new(0);
    pool.insert(tx(vec![input(1)], vec![]));
    assert_eq!(pool.len(), 0);
    assert!(!pool.is_double_spend(&[input(1)]));
}

#[test]
fn transactions_come_out_first_in_first_out() {
    let mut pool = MemoryPool::new(10);
    let all: Vec<Transaction> =
        [9u128, 3, 7, 1, 5].iter().map(|n| tx(vec![input(*n)], vec![])).collect();
    let expected: Vec<H256> = all.iter().map(|t| t.hash()).collect();
    for t in all {
        pool.insert(t);
    }
    assert_eq!(hashes(&pool, 0), vec![]);
    assert_eq!(hashes(&pool, 2), expected[..2].to_vec());
    assert_eq!(hashes(&pool, 5), expected);
    assert_eq!(hashes(&pool, u32::MAX), expected);
    pool.remove_by_hash(&expected[2]);
    assert_eq!(
        hashes(&pool, 5),
        vec![expected[0], expected[1], expected[3], expected[4]]
    );
    // a transaction that comes back goes to the end
    pool.insert(tx(vec![input(7)], vec![]));
    assert_eq!(
        hashes(&pool, 5),
        vec![expected[0], expected[1], expected[3], expected[4], expected[2]]
    );
}

#[test]
fn removing_undoes_inserting() {
    let mut pool = MemoryPool::new(10);
    pool.insert_hashed(h(50), tx(vec![input(1)], vec![output(1)]));
    pool.insert_hashed(h(51), tx(vec![input(2), input(3)], vec![output(1)]));
    pool.remove_by_hash(&h(51));
    assert_eq!(pool.len(), 1);
    assert!(!pool.contains(&h(51)));
    assert!(pool.contains(&h(50)));
    assert!(!pool.is_double_spend(&[input(2), input(3)]));
    assert!(pool.is_double_spend(&[input(1)]));
    // a hash that is not there changes nothing
    pool.remove_by_hash(&h(99));
    assert_eq!(pool.len(), 1);
    // but the storage index is used up
    pool.insert_hashed(h(52), tx(vec![], vec![]));
    assert_eq!(pool.get(&h(52)).unwrap().storage_index, 2);
}

#[test]
fn removing_by_input_removes_the_spender() {
    let mut pool = MemoryPool::new(10);
    pool.insert_hashed(h(50), tx(vec![input(1), input(2)], vec![]));
    pool.insert_hashed(h(51), tx(vec![input(3)], vec![]));
    pool.remove_by_input(&input(9));
    assert_eq!(pool.len(), 2);
    pool.remove_by_input(&input(2));
    assert_eq!(pool.len(), 1);
    assert!(!pool.contains(&h(50)));
    assert!(!pool.is_double_spend(&[input(1), input(2)]));
    assert!(pool.contains(&h(51)));
}

#[test]
fn removing_by_input_runs_down_the_dependents() {
    let mut pool = MemoryPool::new(10);
    let (a, b, c) = (output(1), output(2), output(3));
    // 50 makes two coins; 51 spends the first, 52 spends the second and a coin of 51
    pool.insert_hashed(h(50), tx(vec![input(1)], vec![a, b]));
    pool.insert_hashed(h(51), tx(vec![spend(h(50), 0, &a)], vec![c]));
    pool.insert_hashed(h(52), tx(vec![spend(h(50), 1, &b), spend(h(51), 0, &c)], vec![a]));
    pool.insert_hashed(h(53), tx(vec![spend(h(52), 0, &a)], vec![]));
    pool.insert_hashed(h(54), tx(vec![input(4)], vec![a]));
    pool.remove_by_input(&input(1));
    assert_eq!(pool.len(), 1);
    assert!(pool.contains(&h(54)));
    assert!(pool.is_double_spend(&[input(4)]));
    assert!(!pool.is_double_spend(&[
        input(1),
        spend(h(50), 0, &a),
        spend(h(50), 1, &b),
        spend(h(51), 0, &c),
        spend(h(52), 0, &a),
    ]));
    assert_eq!(pool.get_transactions(10).len(), 1);
}

#[test]
fn removing_by_input_spares_what_does_not_depend() {
    let mut pool = MemoryPool::new(10);
    let (a, b) = (output(1), output(2));
    pool.insert_hashed(h(50), tx(vec![input(1)], vec![a, b]));
    pool.insert_hashed(h(51), tx(vec![spend(h(50), 0, &a)], vec![]));
    pool.insert_hashed(h(52), tx(vec![spend(h(50), 1, &b)], vec![]));
    pool.remove_by_input(&spend(h(50), 1, &b));
    assert!(pool.contains(&h(50)));
    assert!(pool.contains(&h(51)));
    assert!(!pool.contains(&h(52)));
    // an input with another value than the coin has is not a spend of that coin
    let mut wrong = spend(h(50), 1, &b);
    wrong.value = 77;
    pool.insert_hashed(h(53), tx(vec![wrong], vec![]));
    pool.remove_by_input(&input(1));
    assert!(!pool.contains(&h(50)));
    assert!(!pool.contains(&h(51)));
    assert!(pool.contains(&h(53)));
}

#[test]
fn a_double_spend_takes_the_record_over() {
    let mut pool = MemoryPool::new(10);
    pool.insert_hashed(h(50), tx(vec![input(1), input(2)], vec![]));
    pool.insert_hashed(h(51), tx(vec![input(1)], vec![]));
    assert_eq!(pool.len(), 2);
    pool.remove_by_input(&input(1));
    assert!(pool.contains(&h(50)));
    assert!(!pool.contains(&h(51)));
    assert!(!pool.is_double_spend(&[input(1)]));
    assert!(pool.is_double_spend(&[input(2)]));
    assert_eq!(pool.get_transactions(10).len(), 1);
}

#[test]
fn the_same_hash_again_replaces_the_entry() {
    let mut pool = MemoryPool::new(2);
    pool.insert_hashed(h(50), tx(vec![input(1)], vec![output(1)]));
    pool.insert_hashed(h(50), tx(vec![input(1)], vec![output(2)]));
    assert_eq!(pool.len(), 1);
    assert_eq!(pool.get(&h(50)).unwrap().storage_index, 1);
    assert_eq!(pool.get(&h(50)).unwrap().transaction.output, vec![output(2)]);
    // it counts twice, so the pool is full
    pool.insert_hashed(h(51), tx(vec![input(2)], vec![]));
    assert!(!pool.contains(&h(51)));
    assert_eq!(pool.get_transactions(10).len(), 2);
}
