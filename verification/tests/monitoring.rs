use lib::monitoring::Metrics;
use lib::monitoring::increment_rpc_calls_counter;
use lib::monitoring::increment_p2p_msg_unauthenticated_handshake_received_counter;
use lib::monitoring::increment_p2p_msg_authenticated_handshake_received_counter;
use lib::monitoring::increment_p2p_msg_get_neighbors_received_counter;
use lib::monitoring::increment_p2p_msg_get_blocks_inv_received_counter;
use lib::monitoring::increment_p2p_msg_nack_sent_counter;
use lib::monitoring::increment_p2p_msg_ping_received_counter;
use lib::monitoring::increment_p2p_msg_nat_punch_request_received_counter;
use lib::monitoring::increment_stx_blocks_received_counter;
use lib::monitoring::increment_stx_micro_blocks_received_counter;
use lib::monitoring::increment_stx_blocks_served_counter;
use lib::monitoring::increment_stx_micro_blocks_served_counter;
use lib::monitoring::increment_stx_confirmed_micro_blocks_served_counter;
use lib::monitoring::increment_txs_received_counter;
use lib::monitoring::increment_btc_blocks_received_counter;
use lib::monitoring::increment_btc_ops_sent_counter;
use lib::monitoring::increment_stx_blocks_processed_counter;
use lib::monitoring::increment_stx_blocks_mined_counter;
use lib::monitoring::increment_warning_emitted_counter;
use lib::monitoring::increment_errors_emitted_counter;
use lib::monitoring::update_active_miners_count_gauge;

fn counts(m: &Metrics) -> Vec<u64> {
    vec![
        m.rpc_calls,
        m.p2p_msg_unauthenticated_handshake_received,
        m.p2p_msg_authenticated_handshake_received,
        m.p2p_msg_get_neighbors_received,
        m.p2p_msg_get_blocks_inv_received,
        m.p2p_msg_nack_sent,
        m.p2p_msg_ping_received,
        m.p2p_msg_nat_punch_request_received,
        m.stx_blocks_received,
        m.stx_micro_blocks_received,
        m.stx_blocks_served,
        m.stx_micro_blocks_served,
        m.stx_confirmed_micro_blocks_served,
        m.txs_received,
        m.btc_blocks_received,
        m.btc_ops_sent,
        m.stx_blocks_processed,
        m.stx_blocks_mined,
        m.warning_emitted,
        m.errors_emitted,
    ]
}

fn bump_all(m: &mut Metrics) {
    increment_rpc_calls_counter(m);
    increment_p2p_msg_unauthenticated_handshake_received_counter(m);
    increment_p2p_msg_authenticated_handshake_received_counter(m);
    increment_p2p_msg_get_neighbors_received_counter(m);
    increment_p2p_msg_get_blocks_inv_received_counter(m);
    increment_p2p_msg_nack_sent_counter(m);
    increment_p2p_msg_ping_received_counter(m);
    increment_p2p_msg_nat_punch_request_received_counter(m);
    increment_stx_blocks_received_counter(m);
    increment_stx_micro_blocks_received_counter(m);
    increment_stx_blocks_served_counter(m);
    increment_stx_micro_blocks_served_counter(m);
    increment_stx_confirmed_micro_blocks_served_counter(m);
    increment_txs_received_counter(m);
    increment_btc_blocks_received_counter(m);
    increment_btc_ops_sent_counter(m);
    increment_stx_blocks_processed_counter(m);
    increment_stx_blocks_mined_counter(m);
    increment_warning_emitted_counter(m);
    increment_errors_emitted_counter(m);
}

#[test]
fn new_metrics_read_zero() {
    let m = Metrics::new();
    assert!(counts(&m).iter().all(|c| *c == 0));
    assert_eq!(m.active_miners_count, 0);
}

#[test]
fn each_increment_moves_only_its_counter() {
    let incs: Vec<fn(&mut Metrics)> = vec![
        increment_rpc_calls_counter,
        increment_p2p_msg_unauthenticated_handshake_received_counter,
        increment_p2p_msg_authenticated_handshake_received_counter,
        increment_p2p_msg_get_neighbors_received_counter,
        increment_p2p_msg_get_blocks_inv_received_counter,
        increment_p2p_msg_nack_sent_counter,
        increment_p2p_msg_ping_received_counter,
        increment_p2p_msg_nat_punch_request_received_counter,
        increment_stx_blocks_received_counter,
        increment_stx_micro_blocks_received_counter,
        increment_stx_blocks_served_counter,
        increment_stx_micro_blocks_served_counter,
        increment_stx_confirmed_micro_blocks_served_counter,
        increment_txs_received_counter,
        increment_btc_blocks_received_counter,
        increment_btc_ops_sent_counter,
        increment_stx_blocks_processed_counter,
        increment_stx_blocks_mined_counter,
        increment_warning_emitted_counter,
        increment_errors_emitted_counter,
    ];
    for (i, inc) in incs.iter().enumerate() {
        let mut m = Metrics::new();
        m.active_miners_count = 7;
        inc(&mut m);
        inc(&mut m);
        let c = counts(&m);
        for (j, v) in c.iter().enumerate() {
            if i == j {
                assert_eq!(*v, 2);
            } else {
                assert_eq!(*v, 0);
            }
        }
        assert_eq!(m.active_miners_count, 7);
    }
}

#[test]
fn every_counter_counts_independently() {
    let mut m = Metrics::new();
    bump_all(&mut m);
    bump_all(&mut m);
    bump_all(&mut m);
    assert!(counts(&m).iter().all(|c| *c == 3));
}

#[test]
fn counter_wraps_at_maximum() {
    let mut m = Metrics::new();
    m.btc_ops_sent = u64::MAX;
    increment_btc_ops_sent_counter(&mut m);
    assert_eq!(m.btc_ops_sent, 0);
    increment_btc_ops_sent_counter(&mut m);
    assert_eq!(m.btc_ops_sent, 1);
}

#[test]
fn gauge_holds_last_value() {
    let mut m = Metrics::new();
    m.rpc_calls = 5;
    update_active_miners_count_gauge(&mut m, 12);
    assert_eq!(m.active_miners_count, 12);
    update_active_miners_count_gauge(&mut m, -3);
    assert_eq!(m.active_miners_count, -3);
    assert_eq!(m.rpc_calls, 5);
}
