use ip_stats::address::ClientAddress;
use ip_stats::report::rank;
use ip_stats::store::{CounterStore, ReportEntry};
use ip_stats::text::{push_decimal, render_report};

fn entry(address: ClientAddress, count: u64) -> ReportEntry {
    ReportEntry { address, count }
}

#[test]
fn rank_orders_by_descending_count() {
    let a = ClientAddress::V4(1);
    let b = ClientAddress::V4(2);
    let c = ClientAddress::V4(3);
    let ranked = rank(&vec![entry(a, 5), entry(b, 9), entry(c, 1)]);
    assert_eq!(ranked, vec![entry(b, 9), entry(a, 5), entry(c, 1)]);
}

#[test]
fn rank_breaks_ties_by_address() {
    let v6 = ClientAddress::V6(1);
    let low = ClientAddress::V4(7);
    let high = ClientAddress::V4(300);
    let ranked = rank(&vec![entry(v6, 2), entry(high, 2), entry(low, 2), entry(v6, 1)]);
    assert_eq!(ranked, vec![entry(low, 2), entry(high, 2), entry(v6, 2), entry(v6, 1)]);
}

#[test]
fn rank_of_empty_is_empty() {
    assert!(rank(&Vec::new()).is_empty());
}

#[test]
fn address_order_puts_v4_first() {
    assert!(ClientAddress::V4(u32::MAX).before(&ClientAddress::V6(0)));
    assert!(!ClientAddress::V6(0).before(&ClientAddress::V4(0)));
    assert!(ClientAddress::V6(3).before(&ClientAddress::V6(4)));
    assert!(!ClientAddress::V4(4).before(&ClientAddress::V4(4)));
}

fn decimal_text(n: u64) -> String {
    let mut s = String::new();
    push_decimal(&mut s, n);
    s
}

#[test]
fn decimal_text_values() {
    assert_eq!(decimal_text(0), "0");
    assert_eq!(decimal_text(7), "7");
    assert_eq!(decimal_text(10), "10");
    assert_eq!(decimal_text(1234567890), "1234567890");
    assert_eq!(decimal_text(u64::MAX), "18446744073709551615");
}

#[test]
fn push_decimal_appends() {
    let mut s = String::from("n=");
    push_decimal(&mut s, 405);
    assert_eq!(s, "n=405");
}

#[test]
fn render_report_of_no_rows_is_empty() {
    assert_eq!(render_report(&Vec::new()), "");
}

#[test]
fn render_report_joins_lines() {
    let rows = vec![("10.0.0.2".to_string(), 9), ("10.0.0.1".to_string(), 5), ("::2".to_string(), 1)];
    assert_eq!(render_report(&rows), "10.0.0.2: 9\n10.0.0.1: 5\n::2: 1");
}

#[test]
fn report_for_loopback_requests() {
    let v4 = ClientAddress::V4(0x7f00_0001);
    let v6 = ClientAddress::V6(1);
    let mut store = CounterStore::new();
    store.increment(v4);
    store.increment(v6);
    store.increment(v4);
    store.increment(v4);
    let rows: Vec<(String, u64)> = rank(&store.snapshot())
        .into_iter()
        .map(|e| {
            let label = match e.address {
                ClientAddress::V4(0x7f00_0001) => "127.0.0.1".to_string(),
                ClientAddress::V6(1) => "::1".to_string(),
                other => format!("{:?}", other),
            };
            (label, e.count)
        })
        .collect();
    let text = render_report(&rows);
    assert_eq!(text, "127.0.0.1: 3\n::1: 1");
    let first = text.find("127.0.0.1: 3").unwrap();
    let second = text.find("::1: 1").unwrap();
    assert!(first < second);
}
