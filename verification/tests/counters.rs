use http_proxy::meter::{Meter, Written};
use http_proxy::stats::{decr_conn, get_stats, incr_conn, incr_downloaded, incr_uploaded, Stats};

#[test]
fn connections_and_transfers_are_counted() {
    let mut stats = Stats::new();
    incr_conn(&mut stats);
    incr_conn(&mut stats);
    decr_conn(&mut stats);
    incr_uploaded(&mut stats, 10);
    incr_uploaded(&mut stats, 5);
    incr_downloaded(&mut stats, 7);
    let snapshot = get_stats(&stats);
    assert_eq!(
        snapshot,
        Stats { active_connections: 1, uploaded: 15, downloaded: 7, total_connections: 2 },
    );
}

#[test]
fn a_connection_opened_and_closed_stays_in_the_total() {
    let mut stats = Stats::new();
    incr_conn(&mut stats);
    decr_conn(&mut stats);
    assert_eq!((stats.active_connections, stats.total_connections), (0, 1));
}

#[test]
fn counters_wrap_around() {
    let mut stats = Stats::new();
    decr_conn(&mut stats);
    assert_eq!(stats.active_connections, usize::MAX);
    incr_conn(&mut stats);
    assert_eq!(stats.active_connections, 0);
    incr_uploaded(&mut stats, usize::MAX);
    incr_uploaded(&mut stats, 3);
    assert_eq!(stats.uploaded, 2);
}

#[test]
fn the_order_of_counting_makes_no_difference() {
    let mut one = Stats::new();
    incr_uploaded(&mut one, 3);
    incr_conn(&mut one);
    incr_downloaded(&mut one, 4);
    let mut other = Stats::new();
    incr_downloaded(&mut other, 4);
    incr_uploaded(&mut other, 1);
    incr_uploaded(&mut other, 2);
    incr_conn(&mut other);
    assert_eq!(one, other);
}

#[test]
fn bytes_of_a_stream_are_counted() {
    let mut meter = Meter::new();
    assert_eq!(meter.record_read(0, 100), 100);
    assert_eq!(meter.record_read(100, 100), 0);
    assert_eq!(meter.record_read(100, 120), 20);
    meter.record_write(&Written::Bytes(9));
    meter.record_write(&Written::Pending);
    meter.record_write(&Written::Failed);
    assert_eq!(meter.get_read_bytes(), 120);
    assert_eq!(meter.get_written_bytes(), 9);
}
