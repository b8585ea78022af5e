use state_journal::meter::{MeteredDuplex, NetworkIOMeter};

#[test]
fn metered_duplex_ping_pong() {
    let mut d = MeteredDuplex::new(64);

    let ping: Vec<u8> = vec![b'p', b'i', b'n', b'g'];
    let wrote = d.client_write(&ping);
    assert_eq!(wrote, 4);
    let got = d.server_read(4);
    assert_eq!(got, ping);

    let pong: Vec<u8> = vec![b'p', b'o', b'n', b'g'];
    let wrote = d.server_write(&pong);
    assert_eq!(wrote, 4);
    let got = d.client_read(4);
    assert_eq!(got, pong);

    assert_eq!(d.client_meter().total_ingress(), 4);
    assert_eq!(d.client_meter().total_egress(), 4);
    assert_eq!(d.server_meter().total_ingress(), 4);
    assert_eq!(d.server_meter().total_egress(), 4);
}

#[test]
fn read_equals_write() {
    let mut d = MeteredDuplex::new(64);
    let data: Vec<u8> = vec![1, 2, 3, 4, 5];
    d.client_write(&data);
    let got = d.server_read(16);
    assert_eq!(got, data);
    assert_eq!(d.server_meter().total_ingress(), d.client_meter().total_egress());
}

#[test]
fn writes_respect_capacity() {
    let mut d = MeteredDuplex::new(4);
    let data: Vec<u8> = vec![9; 10];
    let wrote = d.client_write(&data);
    assert_eq!(wrote, 4);
    assert_eq!(d.client_meter().total_egress(), 4);
    let got = d.server_read(10);
    assert_eq!(got.len(), 4);
    assert_eq!(d.server_meter().total_ingress(), 4);
}

#[test]
fn counters_saturate_instead_of_wrapping() {
    let mut m = NetworkIOMeter::new();
    m.record_ingress(u64::MAX - 1);
    assert_eq!(m.total_ingress(), u64::MAX - 1);
    let total = m.record_ingress(10);
    assert_eq!(total, u64::MAX);
    assert_eq!(m.total_ingress(), u64::MAX);
    // never below the previous value
    let total = m.record_ingress(1);
    assert_eq!(total, u64::MAX);
}

#[test]
fn failed_or_empty_transfers_count_nothing() {
    let mut d = MeteredDuplex::new(8);
    let got = d.server_read(4);
    assert!(got.is_empty());
    assert_eq!(d.server_meter().total_ingress(), 0);
}

#[test]
fn one_meter_aggregates_many_streams() {
    // traffic from several streams recorded on one shared counter pair
    let mut shared = NetworkIOMeter::new();
    let mut d1 = MeteredDuplex::new(64);
    let mut d2 = MeteredDuplex::new(64);
    let ping: Vec<u8> = vec![b'p', b'i', b'n', b'g'];
    d1.client_write(&ping);
    d2.client_write(&ping);
    shared.record_egress(d1.client_meter().total_egress());
    shared.record_egress(d2.client_meter().total_egress());
    assert_eq!(shared.total_egress(), 8);
}

#[test]
fn meters_are_independent_per_direction() {
    let mut m = NetworkIOMeter::new();
    m.record_egress(7);
    assert_eq!(m.total_egress(), 7);
    assert_eq!(m.total_ingress(), 0);
}
