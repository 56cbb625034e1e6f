use ip_stats::address::ClientAddress;
use ip_stats::interceptor::record_request;
use ip_stats::report::rank;
use ip_stats::store::{CounterStore, ReportEntry};

fn count_of(entries: &[ReportEntry], a: ClientAddress) -> Option<u64> {
    entries.iter().find(|e| e.address == a).map(|e| e.count)
}

#[test]
fn fresh_store_snapshot_is_empty() {
    let store = CounterStore::new();
    assert!(store.snapshot().is_empty());
}

#[test]
fn increments_are_counted_per_address() {
    let a = ClientAddress::V4(0x7f00_0001);
    let b = ClientAddress::V6(1);
    let c = ClientAddress::V4(0x0a00_0005);
    let mut store = CounterStore::new();
    let requests = [a, b, a, c, a, b, a];
    for r in requests {
        store.increment(r);
    }
    let snap = store.snapshot();
    assert_eq!(snap.len(), 3);
    assert_eq!(count_of(&snap, a), Some(4));
    assert_eq!(count_of(&snap, b), Some(2));
    assert_eq!(count_of(&snap, c), Some(1));
    let total: u64 = snap.iter().map(|e| e.count).sum();
    assert_eq!(total, requests.len() as u64);
}

#[test]
fn same_bits_in_two_families_are_two_addresses() {
    let mut store = CounterStore::new();
    store.increment(ClientAddress::V4(1));
    store.increment(ClientAddress::V6(1));
    let snap = store.snapshot();
    assert_eq!(snap.len(), 2);
    assert_eq!(count_of(&snap, ClientAddress::V4(1)), Some(1));
    assert_eq!(count_of(&snap, ClientAddress::V6(1)), Some(1));
}

#[test]
fn snapshot_is_an_independent_copy() {
    let a = ClientAddress::V4(5);
    let mut store = CounterStore::new();
    store.increment(a);
    let before = store.snapshot();
    store.increment(a);
    assert_eq!(count_of(&before, a), Some(1));
    assert_eq!(count_of(&store.snapshot(), a), Some(2));
}

#[test]
fn request_without_caller_is_not_counted() {
    let a = ClientAddress::V4(9);
    let mut store = CounterStore::new();
    record_request(&mut store, Some(a));
    record_request(&mut store, None);
    record_request(&mut store, Some(a));
    let snap = store.snapshot();
    assert_eq!(snap.len(), 1);
    assert_eq!(count_of(&snap, a), Some(2));
}

#[test]
fn ranked_snapshot_of_store() {
    let a = ClientAddress::V4(1);
    let b = ClientAddress::V4(2);
    let mut store = CounterStore::new();
    store.increment(a);
    store.increment(b);
    store.increment(b);
    let ranked = rank(&store.snapshot());
    assert_eq!(
        ranked,
        vec![ReportEntry { address: b, count: 2 }, ReportEntry { address: a, count: 1 }]
    );
}

#[test]
fn ranked_snapshot_orders_store_entries() {
    let a = ClientAddress::V4(10);
    let b = ClientAddress::V6(2);
    let c = ClientAddress::V4(3);
    let mut store = CounterStore::new();
    for r in [a, b, b, c, a, b] {
        store.increment(r);
    }
    assert_eq!(
        store.ranked_snapshot(),
        vec![
            ReportEntry { address: b, count: 3 },
            ReportEntry { address: a, count: 2 },
            ReportEntry { address: c, count: 1 },
        ]
    );
}
