use fedimint_bridge::storage::{FedimintStorage, SQLPseudoTransaction};
use fedimint_core::db::mem_impl::{MemDatabase, MemTransaction};
use fedimint_core::db::{
    IDatabaseTransactionOps, IDatabaseTransactionOpsCore, IRawDatabase, IRawDatabaseTransaction,
};
use futures::executor::block_on;
use futures::StreamExt;

type Pairs = Vec<(Vec<u8>, Vec<u8>)>;

/// One step of a transaction.
#[derive(Clone, Debug)]
enum Step {
    Insert(Vec<u8>, Vec<u8>),
    Get(Vec<u8>),
    Remove(Vec<u8>),
    Find(Vec<u8>),
    FindDescending(Vec<u8>),
    RemoveByPrefix(Vec<u8>),
    Savepoint,
    Rollback,
}

/// What a step answers.
#[derive(Debug, PartialEq, Eq)]
enum Answer {
    Value(Option<Vec<u8>>),
    Pairs(Pairs),
    Nothing,
}

fn on_mem_database(tx: &mut MemTransaction<'_>, step: &Step) -> Answer {
    block_on(async {
        match step {
            Step::Insert(k, v) => Answer::Value(tx.raw_insert_bytes(k, v).await.unwrap()),
            Step::Get(k) => Answer::Value(tx.raw_get_bytes(k).await.unwrap()),
            Step::Remove(k) => Answer::Value(tx.raw_remove_entry(k).await.unwrap()),
            Step::Find(p) => Answer::Pairs(tx.raw_find_by_prefix(p).await.unwrap().collect().await),
            Step::FindDescending(p) => Answer::Pairs(
                tx.raw_find_by_prefix_sorted_descending(p).await.unwrap().collect().await,
            ),
            Step::RemoveByPrefix(p) => {
                tx.raw_remove_by_prefix(p).await.unwrap();
                Answer::Nothing
            }
            Step::Savepoint => {
                tx.set_tx_savepoint().await.unwrap();
                Answer::Nothing
            }
            Step::Rollback => {
                tx.rollback_tx_to_savepoint().await.unwrap();
                Answer::Nothing
            }
        }
    })
}

fn on_store(tx: &mut SQLPseudoTransaction, step: &Step) -> Answer {
    match step {
        Step::Insert(k, v) => Answer::Value(tx.raw_insert_bytes(k, v)),
        Step::Get(k) => Answer::Value(tx.raw_get_bytes(k)),
        Step::Remove(k) => Answer::Value(tx.raw_remove_entry(k)),
        Step::Find(p) => Answer::Pairs(tx.raw_find_by_prefix(p)),
        Step::FindDescending(p) => Answer::Pairs(tx.raw_find_by_prefix_sorted_descending(p)),
        Step::RemoveByPrefix(p) => {
            tx.raw_remove_by_prefix(p);
            Answer::Nothing
        }
        Step::Savepoint => {
            tx.set_tx_savepoint();
            Answer::Nothing
        }
        Step::Rollback => {
            tx.rollback_tx_to_savepoint();
            Answer::Nothing
        }
    }
}

/// Runs the transactions one after the other on the in-memory database of the
/// protocol client and on the store, and holds every answer and what is left
/// after every commit against each other.
fn agree(transactions: &[Vec<Step>]) {
    let mem_database = MemDatabase::new();
    let (mut storage, _) = FedimintStorage::new("fed".to_string(), None).unwrap();
    for steps in transactions {
        let mut expected = block_on(mem_database.begin_transaction());
        let mut actual = storage.begin_transaction();
        for step in steps {
            assert_eq!(on_store(&mut actual, step), on_mem_database(&mut expected, step), "{step:?}");
        }
        let seen: Pairs =
            block_on(async { expected.raw_find_by_prefix(&[]).await.unwrap().collect().await });
        block_on(expected.commit_tx()).unwrap();
        let write = actual.commit_tx(&mut storage).unwrap();
        assert_eq!(write.value, bincode::serialize(&seen).unwrap());

        let mut after = block_on(mem_database.begin_transaction());
        let left: Pairs =
            block_on(async { after.raw_find_by_prefix(&[]).await.unwrap().collect().await });
        assert_eq!(storage.begin_transaction().raw_find_by_prefix(&[]), left);
    }
}

fn key(text: &str) -> Vec<u8> {
    text.as_bytes().to_vec()
}

#[test]
fn store_agrees_with_mem_database_on_inserts_and_reads() {
    agree(&[
        vec![
            Step::Get(key("a")),
            Step::Insert(key("b"), key("1")),
            Step::Insert(key("a"), key("2")),
            Step::Insert(key("b"), key("3")),
            Step::Get(key("b")),
            Step::Find(vec![]),
            Step::FindDescending(vec![]),
        ],
        vec![Step::Get(key("a")), Step::Find(vec![]), Step::Insert(key(""), vec![])],
        vec![Step::Find(vec![]), Step::Get(vec![])],
    ]);
}

#[test]
fn store_agrees_with_mem_database_on_removals() {
    agree(&[
        vec![
            Step::Insert(key("x/1"), key("1")),
            Step::Insert(key("x/2"), key("2")),
            Step::Insert(key("y/1"), key("3")),
            Step::Remove(key("x/1")),
            Step::Remove(key("x/1")),
            Step::Remove(key("nothing")),
            Step::Find(key("x")),
        ],
        vec![
            Step::RemoveByPrefix(key("x/")),
            Step::Find(vec![]),
            Step::RemoveByPrefix(key("nothing")),
            Step::Insert(key("x/9"), key("9")),
        ],
        vec![Step::RemoveByPrefix(vec![]), Step::Find(vec![])],
    ]);
}

#[test]
fn store_agrees_with_mem_database_on_prefix_scans() {
    let keys: [&[u8]; 9] =
        [b"", b"\x00", b"a", b"a\x00", b"a\xff", b"ab", b"abc", b"b", b"\xff\xff"];
    let mut steps: Vec<Step> =
        keys.iter().rev().map(|k| Step::Insert(k.to_vec(), k.to_vec())).collect();
    for prefix in keys {
        steps.push(Step::Find(prefix.to_vec()));
        steps.push(Step::FindDescending(prefix.to_vec()));
    }
    steps.push(Step::Find(b"zz".to_vec()));
    agree(&[steps]);
}

#[test]
fn store_agrees_with_mem_database_on_a_rollback_to_the_savepoint() {
    agree(&[
        vec![
            Step::Insert(key("k1"), key("v1")),
            Step::Savepoint,
            Step::Insert(key("k2"), key("v2")),
            Step::Remove(key("k1")),
            Step::Rollback,
            Step::Get(key("k1")),
            Step::Get(key("k2")),
            Step::Find(vec![]),
        ],
        vec![
            Step::Insert(key("k3"), key("v3")),
            Step::RemoveByPrefix(key("k")),
            Step::Rollback,
            Step::Find(vec![]),
        ],
        vec![Step::Find(vec![])],
    ]);
}

#[test]
fn store_agrees_with_mem_database_on_savepoints_set_again() {
    agree(&[vec![
        Step::Insert(key("a"), key("1")),
        Step::Savepoint,
        Step::Insert(key("b"), key("2")),
        Step::Savepoint,
        Step::Insert(key("c"), key("3")),
        Step::Rollback,
        Step::Find(vec![]),
        Step::Insert(key("d"), key("4")),
    ]]);
}

#[test]
fn store_agrees_with_mem_database_on_many_keys() {
    let mut steps = Vec::new();
    let mut seed: u32 = 12345;
    for _ in 0..400 {
        seed = seed.wrapping_mul(1_103_515_245).wrapping_add(12_345);
        let k = vec![(seed >> 16) as u8 % 7, (seed >> 8) as u8 % 5];
        let k = k[..(1 + (seed as usize >> 24) % 2)].to_vec();
        steps.push(match (seed >> 4) % 6 {
            0 | 1 => Step::Insert(k, seed.to_le_bytes().to_vec()),
            2 => Step::Remove(k),
            3 => Step::Get(k),
            4 => Step::Find(k),
            _ => Step::FindDescending(k[..1].to_vec()),
        });
    }
    let (first, second) = steps.split_at(200);
    agree(&[first.to_vec(), second.to_vec()]);
}

/// Begins all transactions at once, runs their steps, commits them in order,
/// and holds the outcome of every commit and what is left after it against
/// each other.
fn agree_when_overlapping(before: &[Step], transactions: &[Vec<Step>]) {
    let mem_database = MemDatabase::new();
    let (mut storage, _) = FedimintStorage::new("fed".to_string(), None).unwrap();
    {
        let mut expected = block_on(mem_database.begin_transaction());
        let mut actual = storage.begin_transaction();
        for step in before {
            assert_eq!(on_store(&mut actual, step), on_mem_database(&mut expected, step));
        }
        block_on(expected.commit_tx()).unwrap();
        actual.commit_tx(&mut storage).unwrap();
    }
    let mut expected: Vec<MemTransaction<'_>> =
        transactions.iter().map(|_| block_on(mem_database.begin_transaction())).collect();
    let mut actual: Vec<SQLPseudoTransaction> =
        transactions.iter().map(|_| storage.begin_transaction()).collect();
    for (i, steps) in transactions.iter().enumerate() {
        for step in steps {
            assert_eq!(on_store(&mut actual[i], step), on_mem_database(&mut expected[i], step));
        }
    }
    for (expected, actual) in expected.into_iter().zip(actual) {
        let committed = block_on(expected.commit_tx()).is_ok();
        assert_eq!(actual.commit_tx(&mut storage).is_ok(), committed);
        let mut after = block_on(mem_database.begin_transaction());
        let left: Pairs =
            block_on(async { after.raw_find_by_prefix(&[]).await.unwrap().collect().await });
        assert_eq!(storage.begin_transaction().raw_find_by_prefix(&[]), left);
    }
}

#[test]
fn store_agrees_with_mem_database_on_transactions_that_do_not_meet() {
    agree_when_overlapping(
        &[Step::Insert(key("a"), key("0")), Step::Insert(key("b"), key("0"))],
        &[
            vec![Step::Insert(key("a"), key("1")), Step::Insert(key("c"), key("1"))],
            vec![Step::Remove(key("b")), Step::Insert(key("d"), key("2"))],
            vec![Step::Get(key("a")), Step::Find(vec![])],
        ],
    );
}

#[test]
fn store_agrees_with_mem_database_on_transactions_that_conflict() {
    agree_when_overlapping(
        &[Step::Insert(key("a"), key("0")), Step::Insert(key("b"), key("0"))],
        &[
            vec![Step::Insert(key("a"), key("1"))],
            vec![Step::Insert(key("x"), key("2")), Step::Insert(key("a"), key("2"))],
            vec![Step::Remove(key("b"))],
            vec![Step::RemoveByPrefix(vec![])],
            vec![Step::Insert(key("fresh"), key("5"))],
            vec![Step::Insert(key("fresh"), key("6"))],
            vec![Step::Remove(key("never there"))],
        ],
    );
}

#[test]
fn store_agrees_with_mem_database_on_a_conflict_after_a_rollback() {
    agree_when_overlapping(
        &[Step::Insert(key("a"), key("0"))],
        &[
            vec![Step::Insert(key("a"), key("1"))],
            vec![
                Step::Insert(key("b"), key("2")),
                Step::Savepoint,
                Step::Insert(key("a"), key("2")),
                Step::Rollback,
            ],
            vec![Step::Savepoint, Step::Remove(key("a")), Step::Rollback, Step::Remove(key("a"))],
        ],
    );
}
