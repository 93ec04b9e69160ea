use wireguard_udp_proxy::session::{Endpoint, SessionTable, SESSION_VALID_TIME};

#[test]
fn test_upsert_then_lookup_overwrites() {
    let a = Endpoint {
        ip: 0x0a000001,
        port: 1111,
        ipv6: false,
    };
    let b = Endpoint {
        ip: 0x0a000002,
        port: 2222,
        ipv6: false,
    };
    let mut table = SessionTable::new();
    table.sweep_and_upsert(42, a, 1000);
    assert_eq!(table.lookup(42, 1000), Some(a));
    table.sweep_and_upsert(42, b, 1005);
    assert_eq!(table.lookup(42, 1005), Some(b));
    assert_eq!(table.lookup(42, 9999), Some(b));
}

#[test]
fn test_unrelated_upsert_sweeps_expired() {
    let a = Endpoint {
        ip: 0x0a000001,
        port: 1111,
        ipv6: false,
    };
    let b = Endpoint {
        ip: 0x0a000002,
        port: 2222,
        ipv6: false,
    };
    let mut table = SessionTable::new();
    table.sweep_and_upsert(7, a, 1000);
    // an insertion for a different index, after the lifetime has elapsed,
    // sweeps the stale entry away
    table.sweep_and_upsert(8, b, 1000 + SESSION_VALID_TIME + 1);
    assert_eq!(table.lookup(7, 1000 + SESSION_VALID_TIME + 1), None);
    assert_eq!(table.lookup(8, 1000 + SESSION_VALID_TIME + 1), Some(b));
}

#[test]
fn test_lookup_is_lazy_about_expiry() {
    let a = Endpoint {
        ip: 0x0a000001,
        port: 1111,
        ipv6: false,
    };
    let mut table = SessionTable::new();
    table.sweep_and_upsert(7, a, 1000);
    // long past expiry, but no sweep has run: the entry is still routable
    assert_eq!(table.lookup(7, 1000 + 10 * SESSION_VALID_TIME), Some(a));
}

#[test]
fn test_sweep_keeps_fresh_entries() {
    let a = Endpoint {
        ip: 0x0a000001,
        port: 1111,
        ipv6: false,
    };
    let b = Endpoint {
        ip: 0x0a000002,
        port: 2222,
        ipv6: false,
    };
    let mut table = SessionTable::new();
    table.sweep_and_upsert(1, a, 1000);
    // within the lifetime: the sweep of this insertion keeps the entry
    table.sweep_and_upsert(2, b, 1000 + SESSION_VALID_TIME - 1);
    assert_eq!(table.lookup(1, 2000), Some(a));
    assert_eq!(table.lookup(2, 2000), Some(b));
}

#[test]
fn test_sweep_at_exact_expiry_instant() {
    let a = Endpoint {
        ip: 0x0a000001,
        port: 1111,
        ipv6: false,
    };
    let b = Endpoint {
        ip: 0x0a000002,
        port: 2222,
        ipv6: false,
    };
    let mut table = SessionTable::new();
    table.sweep_and_upsert(1, a, 1000);
    // an entry whose expiry equals the sweep time is removed
    table.sweep_and_upsert(2, b, 1000 + SESSION_VALID_TIME);
    assert_eq!(table.lookup(1, 1000 + SESSION_VALID_TIME), None);
}

#[test]
fn test_empty_table_lookup() {
    let table = SessionTable::new();
    assert_eq!(table.lookup(0, 0), None);
    assert_eq!(table.lookup(42, 12345), None);
}

#[test]
fn test_ipv6_endpoints_are_distinct() {
    let v4 = Endpoint {
        ip: 1,
        port: 80,
        ipv6: false,
    };
    let v6 = Endpoint {
        ip: 1,
        port: 80,
        ipv6: true,
    };
    assert_ne!(v4, v6);
    let mut table = SessionTable::new();
    table.sweep_and_upsert(3, v6, 0);
    assert_eq!(table.lookup(3, 0), Some(v6));
}
