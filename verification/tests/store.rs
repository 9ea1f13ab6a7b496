use parity_scale_codec::Encode;
use sp_core::Pair;
use sp_statement_store::SignatureVerificationResult;
use statement_store::index::PURGE_AFTER;
use statement_store::statement::Statement;
use statement_store::store::{Change, Store, SubmitStep};
use statement_store::types::{
    Error, InvalidStatement, NetworkPriority, StatementSource, SubmitResult, ValidStatement,
};
use std::collections::BTreeMap;

const CORRECT_BLOCK_HASH: [u8; 32] = [1u8; 32];
const CLOCK: u64 = 1_000;

type Db = BTreeMap<(u8, Vec<u8>), Vec<u8>>;

fn commit(db: &mut Db, batch: Vec<Change>) {
    for (col, key, value) in batch {
        match value {
            Some(v) => {
                db.insert((col, key), v);
            },
            None => {
                db.remove(&(col, key));
            },
        }
    }
}

fn column(db: &Db, col: u8) -> Vec<Vec<u8>> {
    db.iter().filter(|((c, _), _)| *c == col).map(|(_, v)| v.clone()).collect()
}

fn open(db: &mut Db) -> Store {
    let version = db.get(&(0, b"version".to_vec())).cloned();
    let (mut store, batch) = Store::new(version).unwrap();
    commit(db, batch);
    let purged = store.populate(&column(db, 1), &column(db, 2), CLOCK);
    commit(db, purged);
    store
}

fn test_store() -> (Store, Db) {
    let mut db = Db::new();
    let store = open(&mut db);
    (store, db)
}

fn topic(data: u64) -> [u8; 32] {
    let mut topic = [0u8; 32];
    topic[0..8].copy_from_slice(&data.to_le_bytes());
    topic
}

fn account(id: u64) -> [u8; 32] {
    let mut account = [0u8; 32];
    account[0..8].copy_from_slice(&id.to_le_bytes());
    account
}

fn channel(id: u64) -> [u8; 32] {
    let mut channel = [0u8; 32];
    channel[0..8].copy_from_slice(&id.to_le_bytes());
    channel
}

fn signed_statement(data: u8) -> sp_statement_store::Statement {
    signed_statement_with_topics(data, &[])
}

fn signed_statement_with_topics(data: u8, topics: &[[u8; 32]]) -> sp_statement_store::Statement {
    let mut statement = sp_statement_store::Statement::new();
    statement.set_plain_data(vec![data]);
    for i in 0..topics.len() {
        statement.set_topic(i, topics[i]);
    }
    let kp = sp_core::ed25519::Pair::from_string("//Alice", None).unwrap();
    statement.sign_ed25519_private(&kp);
    statement
}

fn statement(
    account_id: u64,
    priority: u32,
    c: Option<u64>,
    data_len: usize,
) -> sp_statement_store::Statement {
    let mut statement = sp_statement_store::Statement::new();
    let mut data = Vec::new();
    data.resize(data_len, 0);
    statement.set_plain_data(data);
    statement.set_priority(priority);
    if let Some(c) = c {
        statement.set_channel(channel(c));
    }
    statement.set_proof(sp_statement_store::Proof::OnChain {
        block_hash: CORRECT_BLOCK_HASH,
        who: account(account_id),
        event_index: 0,
    });
    statement
}

fn validate(
    statement: &sp_statement_store::Statement,
) -> Result<ValidStatement, InvalidStatement> {
    match statement.verify_signature() {
        SignatureVerificationResult::Valid(_) => {
            Ok(ValidStatement { global_priority: 10, max_count: 100, max_size: 1000 })
        },
        SignatureVerificationResult::Invalid => Err(InvalidStatement::BadProof),
        SignatureVerificationResult::NoSignature => {
            if let Some(sp_statement_store::Proof::OnChain { block_hash, .. }) = statement.proof() {
                if block_hash == &CORRECT_BLOCK_HASH {
                    let (global_priority, max_count, max_size) = match statement.account_id() {
                        Some(a) if a == account(1) => (10, 1, 1000),
                        Some(a) if a == account(2) => (20, 2, 1000),
                        Some(a) if a == account(3) => (30, 3, 1000),
                        Some(a) if a == account(4) => (40, 4, 1000),
                        _ => (0, 2, 2000),
                    };
                    Ok(ValidStatement { global_priority, max_count, max_size })
                } else {
                    Err(InvalidStatement::BadProof)
                }
            } else {
                Err(InvalidStatement::BadProof)
            }
        },
    }
}

fn submit(
    store: &mut Store,
    db: &mut Db,
    statement: &sp_statement_store::Statement,
    source: StatementSource,
) -> SubmitResult {
    let (step, decoded) = store.submit_encoded(&statement.encode(), source);
    match step {
        SubmitStep::Done(result) => result,
        SubmitStep::Validate { .. } => {
            let submitted =
                store.submit_validated(&decoded.unwrap(), validate(statement), CLOCK);
            commit(db, submitted.commit);
            Store::after_commit(submitted.result, None)
        },
    }
}

fn fetch(db: &Db, hashes: Vec<[u8; 32]>) -> Vec<([u8; 32], Option<Vec<u8>>)> {
    hashes.into_iter().map(|h| (h, db.get(&(1, h.to_vec())).cloned())).collect()
}

fn dump(store: &Store, db: &Db) -> Vec<([u8; 32], Statement)> {
    store.dump(&fetch(db, store.hashes()))
}

fn broadcasts(store: &Store, db: &Db, topics: &[[u8; 32]]) -> Vec<Vec<u8>> {
    store.collect_statements(&fetch(db, store.broadcasts(topics)))
}

fn lookup(store: &Store, db: &Db, hash: &[u8; 32]) -> Option<Statement> {
    store.statement(hash, &db.get(&(1, hash.to_vec())).cloned())
}

fn own(statement: &sp_statement_store::Statement) -> Statement {
    Statement::decode(&statement.encode()).unwrap()
}

#[test]
fn submit_one() {
    let (mut store, mut db) = test_store();
    let statement0 = signed_statement(0);
    assert_eq!(
        submit(&mut store, &mut db, &statement0, StatementSource::Network),
        SubmitResult::New(NetworkPriority::High)
    );
    let unsigned = statement(0, 1, None, 0);
    assert_eq!(
        submit(&mut store, &mut db, &unsigned, StatementSource::Network),
        SubmitResult::New(NetworkPriority::Low)
    );
}

#[test]
fn save_and_load_statements() {
    let (mut store, mut db) = test_store();
    let statement0 = signed_statement(0);
    let statement1 = signed_statement(1);
    let statement2 = signed_statement(2);
    assert_eq!(
        submit(&mut store, &mut db, &statement0, StatementSource::Network),
        SubmitResult::New(NetworkPriority::High)
    );
    assert_eq!(
        submit(&mut store, &mut db, &statement1, StatementSource::Network),
        SubmitResult::New(NetworkPriority::High)
    );
    assert_eq!(
        submit(&mut store, &mut db, &statement2, StatementSource::Network),
        SubmitResult::New(NetworkPriority::High)
    );
    assert_eq!(dump(&store, &db).len(), 3);
    assert_eq!(broadcasts(&store, &db, &[]).len(), 3);
    assert_eq!(lookup(&store, &db, &statement1.hash()), Some(own(&statement1)));
    drop(store);

    let store = open(&mut db);
    assert_eq!(dump(&store, &db).len(), 3);
    assert_eq!(broadcasts(&store, &db, &[]).len(), 3);
    assert_eq!(lookup(&store, &db, &statement1.hash()), Some(own(&statement1)));
}

#[test]
fn search_by_topic() {
    let (mut store, mut db) = test_store();
    let statement0 = signed_statement(0);
    let statement1 = signed_statement_with_topics(1, &[topic(0)]);
    let statement2 = signed_statement_with_topics(2, &[topic(0), topic(1)]);
    let statement3 = signed_statement_with_topics(3, &[topic(0), topic(1), topic(2)]);
    let statement4 = signed_statement_with_topics(4, &[topic(0), topic(42), topic(2), topic(3)]);
    let statements = vec![statement0, statement1, statement2, statement3, statement4];
    for s in &statements {
        submit(&mut store, &mut db, s, StatementSource::Network);
    }

    let assert_topics = |topics: &[u64], expected: &[u8]| {
        let topics: Vec<_> = topics.iter().map(|t| topic(*t)).collect();
        let mut got_vals: Vec<_> =
            broadcasts(&store, &db, &topics).into_iter().map(|d| d[0]).collect();
        got_vals.sort();
        assert_eq!(expected.to_vec(), got_vals);
    };

    assert_topics(&[], &[0, 1, 2, 3, 4]);
    assert_topics(&[0], &[1, 2, 3, 4]);
    assert_topics(&[1], &[2, 3]);
    assert_topics(&[2], &[3, 4]);
    assert_topics(&[3], &[4]);
    assert_topics(&[42], &[4]);

    assert_topics(&[0, 1], &[2, 3]);
    assert_topics(&[1, 2], &[3]);
    assert_topics(&[99], &[]);
    assert_topics(&[0, 99], &[]);
    assert_topics(&[0, 1, 2, 3, 42], &[]);
}

#[test]
fn constraints() {
    let (mut store, mut db) = test_store();

    store.index.set_max_size(3000);
    let source = StatementSource::Network;
    let ok = SubmitResult::New(NetworkPriority::High);
    let ignored = SubmitResult::Ignored;

    // Account 1 (limit = 1 msg, 1000 bytes)

    // Oversized statement is not allowed. Limit for account 1 is 1 msg, 1000 bytes
    assert_eq!(submit(&mut store, &mut db, &statement(1, 1, Some(1), 2000), source), ignored);
    assert_eq!(submit(&mut store, &mut db, &statement(1, 1, Some(1), 500), source), ok);
    // Would not replace channel message with same priority
    assert_eq!(submit(&mut store, &mut db, &statement(1, 1, Some(1), 200), source), ignored);
    assert_eq!(submit(&mut store, &mut db, &statement(1, 2, Some(1), 600), source), ok);
    // Submit another message to another channel with lower priority. Should not be allowed
    // because msg count limit is 1
    assert_eq!(submit(&mut store, &mut db, &statement(1, 1, Some(2), 100), source), ignored);
    assert_eq!(store.index.expired_len(), 1);

    // Account 2 (limit = 2 msg, 1000 bytes)

    assert_eq!(submit(&mut store, &mut db, &statement(2, 1, None, 500), source), ok);
    assert_eq!(submit(&mut store, &mut db, &statement(2, 2, None, 100), source), ok);
    // Should evict priority 1
    assert_eq!(submit(&mut store, &mut db, &statement(2, 3, None, 500), source), ok);
    assert_eq!(store.index.expired_len(), 2);
    // Should evict all
    assert_eq!(submit(&mut store, &mut db, &statement(2, 4, None, 1000), source), ok);
    assert_eq!(store.index.expired_len(), 4);

    // Account 3 (limit = 3 msg, 1000 bytes)

    assert_eq!(submit(&mut store, &mut db, &statement(3, 2, Some(1), 300), source), ok);
    assert_eq!(submit(&mut store, &mut db, &statement(3, 3, Some(2), 300), source), ok);
    assert_eq!(submit(&mut store, &mut db, &statement(3, 4, Some(3), 300), source), ok);
    // Should evict 2 and 3
    assert_eq!(submit(&mut store, &mut db, &statement(3, 5, None, 500), source), ok);
    assert_eq!(store.index.expired_len(), 6);

    assert_eq!(store.index.get_total_size(), 2400);
    assert_eq!(store.index.entries_len(), 4);

    // Should be over the global size limit
    assert_eq!(submit(&mut store, &mut db, &statement(4, 1, None, 700), source), ignored);
    // Should be over the global count limit
    store.index.set_max_entries(4);
    assert_eq!(submit(&mut store, &mut db, &statement(4, 1, None, 100), source), ignored);
    // Should evict statement from account 1
    assert_eq!(submit(&mut store, &mut db, &statement(4, 6, None, 100), source), ok);
    assert_eq!(store.index.expired_len(), 7);

    let mut expected_statements = vec![
        statement(2, 4, None, 1000).hash(),
        statement(3, 4, Some(3), 300).hash(),
        statement(3, 5, None, 500).hash(),
        statement(4, 6, None, 100).hash(),
    ];
    expected_statements.sort();
    let mut statements: Vec<_> = dump(&store, &db).into_iter().map(|(hash, _)| hash).collect();
    statements.sort();
    assert_eq!(expected_statements, statements);
}

#[test]
fn expired_statements_are_purged() {
    let (mut store, mut db) = test_store();
    let mut statement = statement(1, 1, Some(3), 100);
    store.set_time(0);
    statement.set_topic(0, topic(4));
    submit(&mut store, &mut db, &statement, StatementSource::Network);
    assert_eq!(store.index.entries_len(), 1);
    let batch = store.remove(&statement.hash(), CLOCK);
    commit(&mut db, batch);
    assert_eq!(store.index.entries_len(), 0);
    assert_eq!(store.index.by_global_priority_len(), 0);
    assert_eq!(store.index.accounts_len(), 0);
    store.set_time(PURGE_AFTER + 1);
    let batch = store.maintain(CLOCK);
    commit(&mut db, batch);
    assert_eq!(store.index.expired_len(), 0);
    drop(store);

    let store = open(&mut db);
    assert_eq!(dump(&store, &db).len(), 0);
    assert_eq!(store.index.expired_len(), 0);
}

#[test]
fn resubmission_is_known() {
    let (mut store, mut db) = test_store();
    let first = statement(1, 1, None, 10);
    assert_eq!(
        submit(&mut store, &mut db, &first, StatementSource::Network),
        SubmitResult::New(NetworkPriority::High)
    );
    let before = db.clone();
    assert_eq!(submit(&mut store, &mut db, &first, StatementSource::Network), SubmitResult::Known);
    assert_eq!(db, before);
    assert_eq!(store.index.entries_len(), 1);
    assert_eq!(store.index.get_total_size(), 10);

    let batch = store.remove(&first.hash(), CLOCK);
    commit(&mut db, batch);
    assert_eq!(
        submit(&mut store, &mut db, &first, StatementSource::Network),
        SubmitResult::KnownExpired
    );
    assert_eq!(store.index.entries_len(), 0);
    assert_eq!(store.index.expired_len(), 1);
}

#[test]
fn local_resubmission_revives_an_expired_statement() {
    let (mut store, mut db) = test_store();
    let first = statement(2, 1, None, 10);
    submit(&mut store, &mut db, &first, StatementSource::Network);
    let batch = store.remove(&first.hash(), CLOCK);
    commit(&mut db, batch);
    assert_eq!(
        submit(&mut store, &mut db, &first, StatementSource::Local),
        SubmitResult::New(NetworkPriority::High)
    );
    assert_eq!(store.index.entries_len(), 1);
    assert_eq!(store.index.expired_len(), 0);
    assert_eq!(store.index.get_total_size(), 10);
    // A live statement that is submitted again is held once.
    assert_eq!(
        submit(&mut store, &mut db, &first, StatementSource::Local),
        SubmitResult::New(NetworkPriority::High)
    );
    assert_eq!(store.index.entries_len(), 1);
    assert_eq!(store.index.get_total_size(), 10);
    assert_eq!(store.index.by_global_priority_len(), 1);
}

#[test]
fn bad_statements_are_reported() {
    let (mut store, mut db) = test_store();
    let mut no_proof = sp_statement_store::Statement::new();
    no_proof.set_plain_data(vec![1, 2, 3]);
    assert_eq!(
        submit(&mut store, &mut db, &no_proof, StatementSource::Network),
        SubmitResult::Bad("No statement proof")
    );
    let mut wrong_block = statement(1, 1, None, 10);
    wrong_block.set_proof(sp_statement_store::Proof::OnChain {
        block_hash: [2u8; 32],
        who: account(1),
        event_index: 0,
    });
    assert_eq!(
        submit(&mut store, &mut db, &wrong_block, StatementSource::Network),
        SubmitResult::Bad("Bad statement proof")
    );
    let (step, decoded) = store.submit_encoded(&[0xff, 0xff, 0xff], StatementSource::Network);
    assert_eq!(step, SubmitStep::Done(SubmitResult::Bad("Bad SCALE encoding")));
    assert_eq!(decoded, None);
    assert_eq!(store.index.entries_len(), 0);
    assert!(column(&db, 1).is_empty());
}

#[test]
fn validator_answers_map_to_results() {
    let (mut store, _db) = test_store();
    let s = own(&statement(1, 1, None, 10));
    let r = store.submit_validated(&s, Err(InvalidStatement::NoProof), CLOCK);
    assert_eq!(r.result, SubmitResult::Bad("Missing statement proof"));
    assert!(r.commit.is_empty());
    let r = store.submit_validated(&s, Err(InvalidStatement::BadProof), CLOCK);
    assert_eq!(r.result, SubmitResult::Bad("Bad statement proof"));
    let r = store.submit_validated(&s, Err(InvalidStatement::InternalError), CLOCK);
    assert_eq!(r.result, SubmitResult::InternalError(Error::Runtime));
    assert_eq!(store.index.entries_len(), 0);
}

#[test]
fn failed_commit_is_an_internal_error() {
    assert_eq!(
        Store::after_commit(SubmitResult::New(NetworkPriority::Low), Some("disk full".to_string())),
        SubmitResult::InternalError(Error::Db("disk full".to_string()))
    );
    assert_eq!(
        Store::after_commit(SubmitResult::New(NetworkPriority::Low), None),
        SubmitResult::New(NetworkPriority::Low)
    );
}

#[test]
fn validation_names_the_block_of_the_proof() {
    let (store, _db) = test_store();
    let on_chain = own(&statement(1, 1, None, 10));
    assert_eq!(
        store.submit(&on_chain, StatementSource::Network),
        SubmitStep::Validate { at_block: Some(CORRECT_BLOCK_HASH) }
    );
    let signed = own(&signed_statement(7));
    assert_eq!(
        store.submit(&signed, StatementSource::Network),
        SubmitStep::Validate { at_block: None }
    );
}

#[test]
fn schema_version_is_checked() {
    let (_store, batch) = Store::new(None).unwrap();
    assert_eq!(batch, vec![(0u8, b"version".to_vec(), Some(vec![1u8, 0, 0, 0]))]);
    let (_store, batch) = Store::new(Some(vec![1, 0, 0, 0])).unwrap();
    assert!(batch.is_empty());
    match Store::new(Some(vec![2, 0, 0, 0])) {
        Err(Error::Db(message)) => assert_eq!(message, "Unsupported database version: 2"),
        _ => panic!("a store of another version was opened"),
    }
    match Store::new(Some(vec![1, 0, 0])) {
        Err(Error::Db(message)) => assert_eq!(message, "Error reading database version"),
        _ => panic!("a store with a short version record was opened"),
    }
}

#[test]
fn submission_commits_statement_and_markers() {
    let (mut store, mut db) = test_store();
    store.set_time(77);
    let low = statement(1, 1, Some(1), 500);
    let high = statement(1, 2, Some(1), 600);
    submit(&mut store, &mut db, &low, StatementSource::Network);
    let (_, decoded) = store.submit_encoded(&high.encode(), StatementSource::Network);
    let submitted = store.submit_validated(&decoded.unwrap(), validate(&high), CLOCK);
    let mut stored = 10u32.to_le_bytes().to_vec();
    stored.extend_from_slice(&high.encode());
    let mut marker = low.hash().to_vec();
    marker.extend_from_slice(&77u64.to_le_bytes());
    assert_eq!(
        submitted.commit,
        vec![
            (1u8, high.hash().to_vec(), Some(stored)),
            (1u8, low.hash().to_vec(), None),
            (2u8, low.hash().to_vec(), Some(marker)),
        ]
    );
    assert_eq!(submitted.result, SubmitResult::New(NetworkPriority::High));
}

#[test]
fn unreadable_records_are_skipped() {
    let (mut store, mut db) = test_store();
    let a = statement(2, 1, None, 3);
    let b = statement(2, 2, None, 4);
    submit(&mut store, &mut db, &a, StatementSource::Network);
    submit(&mut store, &mut db, &b, StatementSource::Network);
    db.insert((1, a.hash().to_vec()), vec![1, 2]);
    db.remove(&(1, b.hash().to_vec()));
    assert_eq!(dump(&store, &db).len(), 0);
    assert_eq!(broadcasts(&store, &db, &[]).len(), 0);
    assert_eq!(lookup(&store, &db, &a.hash()), None);
    assert_eq!(lookup(&store, &db, &b.hash()), None);
    // What is not live is not looked up, whatever the record holds.
    let c = statement(3, 1, None, 5);
    let mut record = 0u32.to_le_bytes().to_vec();
    record.extend_from_slice(&c.encode());
    assert_eq!(store.statement(&c.hash(), &Some(record)), None);
}

#[test]
fn reload_skips_what_cannot_be_read() {
    let mut db = Db::new();
    let good = statement(1, 1, None, 8);
    let mut record = 5u32.to_le_bytes().to_vec();
    record.extend_from_slice(&good.encode());
    db.insert((1, good.hash().to_vec()), record);
    db.insert((1, vec![9u8; 32]), vec![0, 0]);
    let mut no_account = sp_statement_store::Statement::new();
    no_account.set_plain_data(vec![1]);
    let mut record = 5u32.to_le_bytes().to_vec();
    record.extend_from_slice(&no_account.encode());
    db.insert((1, no_account.hash().to_vec()), record);
    db.insert((2, vec![7u8; 32]), vec![7u8; 39]);
    let mut marker = vec![8u8; 32];
    marker.extend_from_slice(&(CLOCK - 1).to_le_bytes());
    db.insert((2, vec![8u8; 32]), marker);
    let store = open(&mut db);
    assert_eq!(store.index.entries_len(), 1);
    assert_eq!(store.index.entry(&good.hash()).unwrap().global_priority, 5);
    assert_eq!(store.index.entry(&good.hash()).unwrap().priority, 1);
    assert_eq!(store.index.expired_len(), 1);
    assert!(store.index.is_expired(&[8u8; 32]));
}

#[test]
fn posted_filters_by_decryption_key() {
    let (mut store, mut db) = test_store();
    let mut keyed = statement(4, 1, None, 2);
    keyed.set_decryption_key([5u8; 32]);
    keyed.set_topic(0, topic(1));
    let mut other = statement(4, 2, None, 2);
    other.set_decryption_key([6u8; 32]);
    other.set_topic(0, topic(1));
    let plain = statement(4, 3, None, 2);
    for s in [&keyed, &other, &plain] {
        assert_eq!(
            submit(&mut store, &mut db, s, StatementSource::Network),
            SubmitResult::New(NetworkPriority::High)
        );
    }
    assert_eq!(store.posted(&[], [5u8; 32]), vec![keyed.hash()]);
    assert_eq!(store.posted(&[topic(1)], [6u8; 32]), vec![other.hash()]);
    assert_eq!(store.posted_clear(&[topic(2)], [6u8; 32]), Vec::<[u8; 32]>::new());
    assert_eq!(store.posted(&[], [7u8; 32]), Vec::<[u8; 32]>::new());
    // Statements that name a decryption key are not broadcast.
    assert_eq!(store.broadcasts(&[topic(1)]), Vec::<[u8; 32]>::new());
    assert_eq!(store.broadcasts(&[]), vec![plain.hash()]);
    assert_eq!(broadcasts(&store, &db, &[]), vec![vec![0u8, 0u8]]);
    assert_eq!(store.hashes().len(), 3);
}

#[test]
fn dump_encoded_gives_the_encodings() {
    let (mut store, mut db) = test_store();
    let a = statement(2, 1, None, 3);
    submit(&mut store, &mut db, &a, StatementSource::Network);
    let dumped = store.dump_encoded(&fetch(&db, store.hashes()));
    assert_eq!(dumped, vec![(a.hash(), a.encode())]);
    assert_eq!(dumped[0].0, sp_statement_store::hash_encoded(&dumped[0].1));
}

#[test]
fn hash_is_the_hash_of_the_encoding() {
    let bytes = statement(1, 2, Some(3), 4).encode();
    assert_eq!(
        statement_store::statement::hash_encoded(&bytes),
        sp_statement_store::hash_encoded(&bytes)
    );
    assert_ne!(statement_store::statement::hash_encoded(&[]), [0u8; 32]);
    let s = own(&statement(1, 2, Some(3), 4));
    assert_eq!(s.hash, statement_store::statement::hash_encoded(&s.encoded));
}

#[test]
fn a_decoded_statement_decodes_from_its_encoding() {
    let mut outside = signed_statement_with_topics(5, &[topic(1), topic(2)]);
    outside.set_decryption_key([4u8; 32]);
    let mut bytes = outside.encode();
    bytes.extend_from_slice(&[1, 2, 3]);
    let s = Statement::decode(&bytes).unwrap();
    assert_eq!(Statement::decode(&s.encoded), Some(s.clone()));
    assert_eq!(s.encoded, outside.encode());
    let mut sparse = sp_statement_store::Statement::new();
    sparse.set_topic(2, topic(7));
    let s = own(&sparse);
    assert_eq!(s.topics, [Some([0u8; 32]), Some([0u8; 32]), Some(topic(7)), None]);
    assert_eq!(Statement::decode(&s.encoded), Some(s.clone()));
}

#[test]
fn the_index_keeps_the_validators_global_priority() {
    let (mut store, mut db) = test_store();
    let s = statement(3, 1, None, 10);
    submit(&mut store, &mut db, &s, StatementSource::Network);
    assert_eq!(store.index.entry(&s.hash()).unwrap().global_priority, 30);
    assert_eq!(store.index.entry(&s.hash()).unwrap().priority, 1);
    let before = store.index.entry(&s.hash());
    drop(store);
    let store = open(&mut db);
    assert_eq!(store.index.entry(&s.hash()), before);
}

#[test]
fn decoding_reads_the_accessors() {
    let mut outside = statement(3, 9, Some(4), 6);
    outside.set_topic(0, topic(11));
    outside.set_topic(1, topic(12));
    outside.set_decryption_key([3u8; 32]);
    let s = own(&outside);
    assert_eq!(s.hash, outside.hash());
    assert_eq!(s.account_id, Some(account(3)));
    assert_eq!(s.proof_block, Some(CORRECT_BLOCK_HASH));
    assert_eq!(s.priority, Some(9));
    assert_eq!(s.priority_or_default(), 9);
    assert_eq!(s.channel, Some(channel(4)));
    assert_eq!(s.topics, [Some(topic(11)), Some(topic(12)), None, None]);
    assert_eq!(s.decryption_key, Some([3u8; 32]));
    assert_eq!(s.data, Some(vec![0u8; 6]));
    assert_eq!(s.data_len(), 6);
    assert_eq!(s.encoded, outside.encode());
    assert_eq!(Statement::decode(&[1, 2, 3]), None);
    let empty = own(&sp_statement_store::Statement::new());
    assert_eq!(empty.priority_or_default(), 0);
    assert_eq!(empty.data_len(), 0);
    assert_eq!(empty.account_id, None);
}

#[test]
fn time_override_replaces_the_clock() {
    let (mut store, _db) = test_store();
    assert_eq!(store.timestamp(5), 5);
    store.set_time(9);
    assert_eq!(store.timestamp(5), 9);
}

#[test]
fn reload_after_evictions_gives_the_same_statements() {
    let (mut store, mut db) = test_store();
    let source = StatementSource::Network;
    for s in [
        statement(2, 1, None, 500),
        statement(2, 2, Some(1), 100),
        statement(2, 3, Some(1), 500),
        statement(3, 1, None, 10),
    ] {
        submit(&mut store, &mut db, &s, source);
    }
    let mut before: Vec<_> = dump(&store, &db).into_iter().map(|(h, s)| (h, s.encoded)).collect();
    before.sort();
    assert_eq!(before.len(), 3);
    let expired = store.index.expired_len();
    assert_eq!(expired, 1);
    drop(store);
    let store = open(&mut db);
    let mut after: Vec<_> = dump(&store, &db).into_iter().map(|(h, s)| (h, s.encoded)).collect();
    after.sort();
    assert_eq!(before, after);
    assert_eq!(store.index.expired_len(), expired);
    assert_eq!(store.index.get_total_size(), 1010);
    assert_eq!(
        store.index.entry(&statement(3, 1, None, 10).hash()).unwrap().global_priority,
        30
    );
}
