use parity_scale_codec::Encode;
use statement_store::index::{Index, MaybeInserted, MAX_LIVE_STATEMENTS, MAX_TOTAL_SIZE, PURGE_AFTER};
use statement_store::statement::Statement;
use statement_store::types::{IndexQuery, ValidStatement};

fn id(n: u64) -> [u8; 32] {
    let mut id = [0u8; 32];
    id[0..8].copy_from_slice(&n.to_le_bytes());
    id
}

fn make(account: u64, priority: u32, channel: Option<u64>, len: usize, topics: &[u64]) -> Statement {
    let mut s = sp_statement_store::Statement::new();
    s.set_plain_data(vec![0u8; len]);
    s.set_priority(priority);
    if let Some(c) = channel {
        s.set_channel(id(c));
    }
    for (i, t) in topics.iter().enumerate() {
        s.set_topic(i, id(*t));
    }
    s.set_proof(sp_statement_store::Proof::OnChain {
        block_hash: [1u8; 32],
        who: id(account),
        event_index: 0,
    });
    Statement::decode(&s.encode()).unwrap()
}

fn quota(max_count: u32, max_size: u32) -> ValidStatement {
    ValidStatement { global_priority: 0, max_count, max_size }
}

fn grant(global_priority: u32, max_count: u32, max_size: u32) -> ValidStatement {
    ValidStatement { global_priority, max_count, max_size }
}

fn offer(index: &mut Index, s: &Statement, v: ValidStatement, now: u64) -> MaybeInserted {
    index.insert(s.hash, s, &s.account_id.unwrap(), &v, now)
}

#[test]
fn new_index_has_default_limits() {
    let index = Index::new();
    assert_eq!(index.get_max_entries(), 8192);
    assert_eq!(index.get_max_size(), 64 * 1024 * 1024);
    assert_eq!(MAX_LIVE_STATEMENTS, 8192);
    assert_eq!(MAX_TOTAL_SIZE, 64 * 1024 * 1024);
    assert_eq!(PURGE_AFTER, 2 * 24 * 60 * 60);
    assert_eq!(index.entries_len(), 0);
    assert_eq!(index.expired_len(), 0);
    assert_eq!(index.get_total_size(), 0);
}

#[test]
fn scenario_of_one_account_with_one_slot() {
    let mut index = Index::new();
    let v = quota(1, 1000);
    let oversize = make(1, 1, Some(1), 2000, &[]);
    assert_eq!(offer(&mut index, &oversize, v, 5), MaybeInserted::Ignored);
    let first = make(1, 1, Some(1), 500, &[]);
    assert_eq!(offer(&mut index, &first, v, 5), MaybeInserted::Inserted(vec![]));
    let same_priority = make(1, 1, Some(1), 200, &[]);
    assert_eq!(offer(&mut index, &same_priority, v, 5), MaybeInserted::Ignored);
    let higher = make(1, 2, Some(1), 600, &[]);
    assert_eq!(offer(&mut index, &higher, v, 6), MaybeInserted::Inserted(vec![first.hash]));
    let other_channel = make(1, 1, Some(2), 100, &[]);
    assert_eq!(offer(&mut index, &other_channel, v, 7), MaybeInserted::Ignored);
    assert_eq!(index.query(&higher.hash), IndexQuery::Exists);
    assert_eq!(index.query(&first.hash), IndexQuery::Expired);
    assert_eq!(index.query(&oversize.hash), IndexQuery::Unknown);
    assert_eq!(index.entries_len(), 1);
    assert_eq!(index.get_total_size(), 600);
}

#[test]
fn eviction_goes_from_the_lowest_priority_up() {
    let mut index = Index::new();
    let v = quota(3, 1000);
    let a = make(1, 3, None, 300, &[]);
    let b = make(1, 1, None, 300, &[]);
    let c = make(1, 2, None, 300, &[]);
    for s in [&a, &b, &c] {
        assert_eq!(offer(&mut index, s, v, 1), MaybeInserted::Inserted(vec![]));
    }
    let d = make(1, 4, None, 500, &[]);
    assert_eq!(offer(&mut index, &d, v, 2), MaybeInserted::Inserted(vec![b.hash, c.hash]));
    assert_eq!(index.get_total_size(), 800);
    assert_eq!(index.entries_len(), 2);
    // Equal priority never evicts.
    let e = make(1, 3, None, 900, &[]);
    assert_eq!(offer(&mut index, &e, v, 3), MaybeInserted::Ignored);
    assert_eq!(index.entries_len(), 2);
    assert_eq!(index.expired_len(), 2);
}

#[test]
fn ties_are_broken_by_hash() {
    let mut index = Index::new();
    let v = quota(2, 1000);
    let a = make(1, 1, None, 10, &[]);
    let b = make(1, 1, None, 20, &[]);
    offer(&mut index, &a, v, 1);
    offer(&mut index, &b, v, 1);
    let c = make(1, 2, None, 30, &[]);
    let lower = if a.hash < b.hash { a.hash } else { b.hash };
    assert_eq!(offer(&mut index, &c, v, 2), MaybeInserted::Inserted(vec![lower]));
}

#[test]
fn global_limits_evict_other_accounts() {
    let mut index = Index::with_limits(2, 100);
    let a = make(1, 1, None, 40, &[]);
    let b = make(2, 2, None, 40, &[]);
    assert_eq!(offer(&mut index, &a, grant(1, 5, 1000), 1), MaybeInserted::Inserted(vec![]));
    assert_eq!(offer(&mut index, &b, grant(2, 5, 1000), 1), MaybeInserted::Inserted(vec![]));
    let c = make(3, 1, None, 10, &[]);
    assert_eq!(offer(&mut index, &c, grant(9, 5, 1000), 2), MaybeInserted::Ignored);
    let d = make(3, 3, None, 90, &[]);
    assert_eq!(
        offer(&mut index, &d, grant(0, 5, 1000), 2),
        MaybeInserted::Inserted(vec![a.hash, b.hash])
    );
    assert_eq!(index.entry(&d.hash).unwrap().global_priority, 0);
    assert_eq!(index.entry(&d.hash).unwrap().priority, 3);
    assert_eq!(index.get_total_size(), 90);
    assert_eq!(index.entries_len(), 1);
    assert_eq!(index.accounts_len(), 1);
}

#[test]
fn a_statement_larger_than_the_global_limit_is_ignored() {
    let mut index = Index::with_limits(10, 100);
    let a = make(1, 1, None, 40, &[]);
    offer(&mut index, &a, quota(5, 1000), 1);
    let big = make(2, 2, None, 150, &[]);
    assert_eq!(offer(&mut index, &big, quota(5, 1000), 2), MaybeInserted::Ignored);
    assert_eq!(index.entries_len(), 1);
    assert_eq!(index.get_total_size(), 40);
    assert_eq!(index.expired_len(), 0);
    let mut none = Index::with_limits(10, 100);
    assert_eq!(offer(&mut none, &big, quota(5, 1000), 2), MaybeInserted::Ignored);
    let mut closed = Index::with_limits(0, 100);
    assert_eq!(offer(&mut closed, &a, quota(5, 1000), 2), MaybeInserted::Ignored);
    assert_eq!(closed.entries_len(), 0);
}

#[test]
fn the_global_queue_goes_by_global_priority() {
    let mut index = Index::with_limits(2, 1000);
    let a = make(1, 1, None, 10, &[]);
    let b = make(2, 2, None, 10, &[]);
    // The statement with the higher own priority has the lower global one.
    offer(&mut index, &a, grant(9, 5, 1000), 1);
    offer(&mut index, &b, grant(3, 5, 1000), 1);
    assert_eq!(index.entry(&a.hash).unwrap().global_priority, 9);
    assert_eq!(index.entry(&b.hash).unwrap().global_priority, 3);
    // The walk comes upon `b` first, whose own priority is not lower.
    let c = make(3, 2, None, 10, &[]);
    assert_eq!(offer(&mut index, &c, grant(5, 5, 1000), 2), MaybeInserted::Ignored);
    // With a higher own priority `b` is evicted, and it alone.
    let d = make(3, 3, None, 10, &[]);
    assert_eq!(offer(&mut index, &d, grant(5, 5, 1000), 2), MaybeInserted::Inserted(vec![b.hash]));
    assert_eq!(index.entries_len(), 2);
}

#[test]
fn make_expired_is_idempotent() {
    let mut index = Index::new();
    let a = make(1, 1, Some(1), 40, &[7]);
    offer(&mut index, &a, quota(5, 1000), 1);
    assert!(index.make_expired(&a.hash, 10));
    assert!(!index.make_expired(&a.hash, 11));
    assert!(!index.make_expired(&id(99), 11));
    assert_eq!(index.entries_len(), 0);
    assert_eq!(index.by_global_priority_len(), 0);
    assert_eq!(index.accounts_len(), 0);
    assert_eq!(index.get_total_size(), 0);
    assert!(index.is_expired(&a.hash));
    assert!(index.iter(None, &[id(7)]).is_empty());
    assert_eq!(index.entry(&a.hash), None);
}

#[test]
fn maintain_purges_at_the_deadline() {
    let mut index = Index::new();
    index.insert_expired(id(1), 100);
    index.insert_expired(id(2), 101);
    assert_eq!(index.maintain(100 + PURGE_AFTER - 1), Vec::<[u8; 32]>::new());
    assert_eq!(index.maintain(100 + PURGE_AFTER), vec![id(1)]);
    assert_eq!(index.expired_len(), 1);
    assert_eq!(index.maintain(u64::MAX), vec![id(2)]);
    assert_eq!(index.expired_len(), 0);
    index.insert_expired(id(3), u64::MAX);
    assert_eq!(index.maintain(u64::MAX), Vec::<[u8; 32]>::new());
    assert!(index.is_expired(&id(3)));
}

#[test]
fn a_live_statement_is_not_marked_expired() {
    let mut index = Index::new();
    let a = make(1, 1, None, 40, &[]);
    offer(&mut index, &a, quota(5, 1000), 1);
    index.insert_expired(a.hash, 5);
    assert_eq!(index.query(&a.hash), IndexQuery::Exists);
    assert!(!index.is_expired(&a.hash));
}

#[test]
fn loading_keeps_one_statement_per_channel() {
    let mut index = Index::new();
    let a = make(1, 1, Some(1), 40, &[]);
    let b = make(1, 2, Some(1), 50, &[]);
    let c = make(2, 2, Some(1), 60, &[]);
    assert!(index.insert_new(a.hash, id(1), 9, &a));
    assert!(!index.insert_new(b.hash, id(1), 9, &b));
    assert!(index.insert_new(c.hash, id(2), 9, &c));
    assert!(index.insert_new(a.hash, id(1), 7, &a));
    assert_eq!(index.entries_len(), 2);
    assert_eq!(index.get_total_size(), 100);
    assert_eq!(index.entry(&a.hash).unwrap().global_priority, 7);
    assert_eq!(index.entry(&a.hash).unwrap().len, 40);
    assert_eq!(index.entry(&a.hash).unwrap().channel, Some(id(1)));
}

#[test]
fn queries_match_all_topics() {
    let mut index = Index::new();
    let a = make(1, 1, None, 1, &[1, 2]);
    let b = make(1, 2, None, 1, &[2, 3]);
    let c = make(1, 3, None, 1, &[]);
    for s in [&a, &b, &c] {
        offer(&mut index, s, quota(10, 1000), 1);
    }
    let sorted = |mut v: Vec<[u8; 32]>| {
        v.sort();
        v
    };
    assert_eq!(sorted(index.iter(None, &[])), sorted(vec![a.hash, b.hash, c.hash]));
    assert_eq!(sorted(index.iter(None, &[id(2)])), sorted(vec![a.hash, b.hash]));
    assert_eq!(index.iter(None, &[id(2), id(1)]), vec![a.hash]);
    assert_eq!(index.iter(None, &[id(2), id(3)]), vec![b.hash]);
    assert!(index.iter(None, &[id(1), id(3)]).is_empty());
    assert!(index.iter(None, &[id(9)]).is_empty());
    assert_eq!(index.iter(None, &[id(2), id(2), id(1), id(1)]), vec![a.hash]);
    assert!(index.iter(None, &[id(2), id(2), id(2), id(2), id(2)]).is_empty());
    assert!(index.iter(Some(id(5)), &[]).is_empty());
}

#[test]
fn a_quota_of_no_statements_holds_none() {
    let mut index = Index::new();
    let a = make(1, 1, None, 10, &[]);
    assert_eq!(offer(&mut index, &a, quota(0, 1000), 1), MaybeInserted::Ignored);
    assert_eq!(index.entries_len(), 0);
    assert_eq!(index.accounts_len(), 0);
    assert_eq!(offer(&mut index, &a, quota(1, 9), 1), MaybeInserted::Ignored);
    assert_eq!(offer(&mut index, &a, quota(1, 10), 1), MaybeInserted::Inserted(vec![]));
    let b = make(1, 2, None, 10, &[]);
    assert_eq!(offer(&mut index, &b, quota(0, 1000), 2), MaybeInserted::Ignored);
    assert_eq!(index.entries_len(), 1);
}

#[test]
fn an_admitted_statement_is_no_longer_expired() {
    let mut index = Index::new();
    let a = make(1, 1, None, 10, &[]);
    offer(&mut index, &a, quota(5, 1000), 1);
    assert!(index.make_expired(&a.hash, 2));
    assert_eq!(index.query(&a.hash), IndexQuery::Expired);
    assert_eq!(offer(&mut index, &a, quota(5, 1000), 3), MaybeInserted::Inserted(vec![]));
    assert_eq!(index.query(&a.hash), IndexQuery::Exists);
    assert!(!index.is_expired(&a.hash));
    assert_eq!(index.expired_len(), 0);
}

#[test]
fn limits_can_be_changed() {
    let mut index = Index::with_limits(3, 30);
    assert_eq!(index.get_max_entries(), 3);
    assert_eq!(index.get_max_size(), 30);
    index.set_max_entries(7);
    index.set_max_size(70);
    assert_eq!(index.get_max_entries(), 7);
    assert_eq!(index.get_max_size(), 70);
}
