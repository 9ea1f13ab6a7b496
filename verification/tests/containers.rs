use statement_store::account::{ChannelEntry, StatementsForAccount};
use statement_store::cargo_command::{CargoCommand, CargoCommandVersioned};
use statement_store::key_map::KeyMap;
use statement_store::key_set::KeySet;
use statement_store::keys::{bytes_before, same_bytes, PriorityKey};
use statement_store::queue::{PriorityQueue, QueueEntry};
use statement_store::types::StatementSource;

fn id(n: u8) -> [u8; 32] {
    let mut id = [0u8; 32];
    id[31] = n;
    id
}

fn item(priority: u32, hash: u8, channel: Option<u8>, len: usize) -> QueueEntry {
    QueueEntry {
        key: PriorityKey { hash: id(hash), priority },
        priority,
        channel: channel.map(id),
        len,
    }
}

#[test]
fn identifiers_are_ordered_by_their_bytes() {
    let mut high = [0u8; 32];
    high[0] = 1;
    assert!(bytes_before(&id(1), &id(2)));
    assert!(!bytes_before(&id(2), &id(1)));
    assert!(!bytes_before(&id(2), &id(2)));
    assert!(bytes_before(&id(200), &high));
    assert_eq!(bytes_before(&id(200), &high), id(200) < high);
    assert!(same_bytes(&id(3), &id(3)));
    assert!(!same_bytes(&id(3), &id(4)));
}

#[test]
fn keys_are_ordered_by_priority_and_hash() {
    let low = PriorityKey { hash: id(9), priority: 1 };
    let high = PriorityKey { hash: id(1), priority: 2 };
    let tie = PriorityKey { hash: id(2), priority: 2 };
    assert!(low.precedes(&high));
    assert!(!high.precedes(&low));
    assert!(high.precedes(&tie));
    assert!(!tie.precedes(&high));
    assert!(!tie.precedes(&tie));
    assert!(tie.same(&tie));
    assert!(!tie.same(&high));
}

#[test]
fn key_map_holds_one_value_per_key() {
    let mut map: KeyMap<u32> = KeyMap::new();
    assert!(map.is_empty());
    assert_eq!(map.insert(id(1), 10), None);
    assert_eq!(map.insert(id(2), 20), None);
    assert_eq!(map.insert(id(1), 11), Some(10));
    assert_eq!(map.len(), 2);
    assert_eq!(map.get(&id(1)), Some(&11));
    assert_eq!(map.get(&id(3)), None);
    assert!(map.contains_key(&id(2)));
    assert_eq!(map.remove(&id(1)), Some(11));
    assert_eq!(map.remove(&id(1)), None);
    assert_eq!(map.len(), 1);
    assert_eq!(map.key(0), &id(2));
    assert_eq!(map.value(0), &20);
}

#[test]
fn key_set_holds_each_member_once() {
    let mut set = KeySet::new();
    assert!(set.insert(id(1)));
    assert!(!set.insert(id(1)));
    assert!(set.insert(id(2)));
    assert_eq!(set.len(), 2);
    assert!(set.contains(&id(2)));
    assert!(set.remove(&id(1)));
    assert!(!set.remove(&id(1)));
    assert!(!set.contains(&id(1)));
    assert_eq!(set.item(0), &id(2));
}

#[test]
fn queue_keeps_ascending_order() {
    let mut queue = PriorityQueue::new();
    queue.insert(item(5, 1, None, 10));
    queue.insert(item(1, 2, None, 20));
    queue.insert(item(5, 0, None, 30));
    queue.insert(item(3, 3, None, 40));
    assert_eq!(queue.len(), 4);
    assert_eq!(queue.total(), 100);
    let order: Vec<(u32, u8)> =
        (0..4).map(|i| (queue.entry(i).key.priority, queue.entry(i).key.hash[31])).collect();
    assert_eq!(order, vec![(1, 2), (3, 3), (5, 0), (5, 1)]);
    assert_eq!(queue.get(&PriorityKey { hash: id(3), priority: 3 }), Some(&item(3, 3, None, 40)));
    assert_eq!(queue.get(&PriorityKey { hash: id(3), priority: 4 }), None);
    assert_eq!(
        queue.remove(&PriorityKey { hash: id(3), priority: 3 }),
        Some(item(3, 3, None, 40))
    );
    assert_eq!(queue.remove(&PriorityKey { hash: id(3), priority: 3 }), None);
    assert_eq!(queue.len(), 3);
    assert_eq!(queue.total(), 60);
}

#[test]
fn account_tracks_channels_and_size() {
    let mut account = StatementsForAccount::new();
    assert!(account.is_empty());
    account.insert(item(2, 1, Some(7), 10));
    account.insert(item(1, 2, None, 5));
    assert_eq!(account.len(), 2);
    assert_eq!(account.size(), 15);
    assert_eq!(account.channel(&id(7)), Some(&ChannelEntry { hash: id(1), priority: 2 }));
    assert_eq!(account.channel(&id(8)), None);
    assert_eq!(account.entry(0), &item(1, 2, None, 5));
    assert_eq!(account.queue().entry(1), &item(2, 1, Some(7), 10));
    assert_eq!(
        account.get(&PriorityKey { hash: id(1), priority: 2 }),
        Some(&item(2, 1, Some(7), 10))
    );
    assert_eq!(
        account.remove(&PriorityKey { hash: id(1), priority: 2 }),
        Some(item(2, 1, Some(7), 10))
    );
    assert_eq!(account.channel(&id(7)), None);
    assert_eq!(account.size(), 5);
    assert_eq!(account.remove(&PriorityKey { hash: id(1), priority: 2 }), None);
}

#[test]
fn sources_that_may_resubmit() {
    assert!(StatementSource::Chain.can_be_resubmitted());
    assert!(StatementSource::Local.can_be_resubmitted());
    assert!(!StatementSource::Network.can_be_resubmitted());
}

#[test]
fn cargo_command_keeps_its_version() {
    let command = CargoCommand::new("cargo".to_string());
    assert_eq!(command.program_path(), "cargo");
    let versioned = CargoCommandVersioned::new(command, "1.70.0".to_string());
    assert_eq!(versioned.rustc_version(), "1.70.0");
    assert_eq!(versioned.cargo().program_path(), "cargo");
}
