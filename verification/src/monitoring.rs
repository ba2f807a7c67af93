use vstd::prelude::*;

verus! {

/// The value an event counter holds after one more event: counters wrap
/// around at `u64::MAX`, as an atomic fetch-and-add does.
pub open spec fn bumped(count: u64) -> u64 {
    if count == u64::MAX { 0 } else { (count + 1) as u64 }
}

/// The node's event counters and its one gauge, as plain values.
///
/// Each `increment_*` function below moves exactly one counter forward by one
/// event and leaves every other counter and the gauge as they were.
#[derive(Clone, Copy, Debug)]
pub struct Metrics {
    /// Counts events of this kind: RPC call served.
    pub rpc_calls: u64,
    /// Counts events of this kind: unauthenticated handshake message received.
    pub p2p_msg_unauthenticated_handshake_received: u64,
    /// Counts events of this kind: authenticated handshake message received.
    pub p2p_msg_authenticated_handshake_received: u64,
    /// Counts events of this kind: GetNeighbors message received.
    pub p2p_msg_get_neighbors_received: u64,
    /// Counts events of this kind: GetBlocksInv message received.
    pub p2p_msg_get_blocks_inv_received: u64,
    /// Counts events of this kind: Nack message sent.
    pub p2p_msg_nack_sent: u64,
    /// Counts events of this kind: Ping message received.
    pub p2p_msg_ping_received: u64,
    /// Counts events of this kind: NAT punch request received.
    pub p2p_msg_nat_punch_request_received: u64,
    /// Counts events of this kind: Stacks block received.
    pub stx_blocks_received: u64,
    /// Counts events of this kind: Stacks microblock received.
    pub stx_micro_blocks_received: u64,
    /// Counts events of this kind: Stacks block served.
    pub stx_blocks_served: u64,
    /// Counts events of this kind: Stacks microblock served.
    pub stx_micro_blocks_served: u64,
    /// Counts events of this kind: confirmed Stacks microblock served.
    pub stx_confirmed_micro_blocks_served: u64,
    /// Counts events of this kind: transaction received.
    pub txs_received: u64,
    /// Counts events of this kind: Bitcoin block received.
    pub btc_blocks_received: u64,
    /// Counts events of this kind: Bitcoin operation sent.
    pub btc_ops_sent: u64,
    /// Counts events of this kind: Stacks block processed.
    pub stx_blocks_processed: u64,
    /// Counts events of this kind: Stacks block mined.
    pub stx_blocks_mined: u64,
    /// Counts events of this kind: warning emitted.
    pub warning_emitted: u64,
    /// Counts events of this kind: error emitted.
    pub errors_emitted: u64,
    /// The number of miners currently active, as last reported.
    pub active_miners_count: i64,
}

impl Metrics {
    /// A registry where every counter and the gauge read zero.
    pub fn new() -> (m: Self)
        ensures
            m.rpc_calls == 0,
            m.p2p_msg_unauthenticated_handshake_received == 0,
            m.p2p_msg_authenticated_handshake_received == 0,
            m.p2p_msg_get_neighbors_received == 0,
            m.p2p_msg_get_blocks_inv_received == 0,
            m.p2p_msg_nack_sent == 0,
            m.p2p_msg_ping_received == 0,
            m.p2p_msg_nat_punch_request_received == 0,
            m.stx_blocks_received == 0,
            m.stx_micro_blocks_received == 0,
            m.stx_blocks_served == 0,
            m.stx_micro_blocks_served == 0,
            m.stx_confirmed_micro_blocks_served == 0,
            m.txs_received == 0,
            m.btc_blocks_received == 0,
            m.btc_ops_sent == 0,
            m.stx_blocks_processed == 0,
            m.stx_blocks_mined == 0,
            m.warning_emitted == 0,
            m.errors_emitted == 0,
            m.active_miners_count == 0,
    {
        Metrics {
            rpc_calls: 0,
            p2p_msg_unauthenticated_handshake_received: 0,
            p2p_msg_authenticated_handshake_received: 0,
            p2p_msg_get_neighbors_received: 0,
            p2p_msg_get_blocks_inv_received: 0,
            p2p_msg_nack_sent: 0,
            p2p_msg_ping_received: 0,
            p2p_msg_nat_punch_request_received: 0,
            stx_blocks_received: 0,
            stx_micro_blocks_received: 0,
            stx_blocks_served: 0,
            stx_micro_blocks_served: 0,
            stx_confirmed_micro_blocks_served: 0,
            txs_received: 0,
            btc_blocks_received: 0,
            btc_ops_sent: 0,
            stx_blocks_processed: 0,
            stx_blocks_mined: 0,
            warning_emitted: 0,
            errors_emitted: 0,
            active_miners_count: 0,
        }
    }
}

/// Records one RPC call served.
pub fn increment_rpc_calls_counter(metrics: &mut Metrics)
    ensures
        *final(metrics) == (Metrics { rpc_calls: bumped(old(metrics).rpc_calls), ..*old(metrics) }),
{
    metrics.rpc_calls = metrics.rpc_calls.wrapping_add(1);
}

/// Records one unauthenticated handshake message received.
pub fn increment_p2p_msg_unauthenticated_handshake_received_counter(metrics: &mut Metrics)
    ensures
        *final(metrics) == (Metrics { p2p_msg_unauthenticated_handshake_received: bumped(old(metrics).p2p_msg_unauthenticated_handshake_received), ..*old(metrics) }),
{
    metrics.p2p_msg_unauthenticated_handshake_received = metrics.p2p_msg_unauthenticated_handshake_received.wrapping_add(1);
}

/// Records one authenticated handshake message received.
pub fn increment_p2p_msg_authenticated_handshake_received_counter(metrics: &mut Metrics)
    ensures
        *final(metrics) == (Metrics { p2p_msg_authenticated_handshake_received: bumped(old(metrics).p2p_msg_authenticated_handshake_received), ..*old(metrics) }),
{
    metrics.p2p_msg_authenticated_handshake_received = metrics.p2p_msg_authenticated_handshake_received.wrapping_add(1);
}

/// Records one GetNeighbors message received.
pub fn increment_p2p_msg_get_neighbors_received_counter(metrics: &mut Metrics)
    ensures
        *final(metrics) == (Metrics { p2p_msg_get_neighbors_received: bumped(old(metrics).p2p_msg_get_neighbors_received), ..*old(metrics) }),
{
    metrics.p2p_msg_get_neighbors_received = metrics.p2p_msg_get_neighbors_received.wrapping_add(1);
}

/// Records one GetBlocksInv message received.
pub fn increment_p2p_msg_get_blocks_inv_received_counter(metrics: &mut Metrics)
    ensures
        *final(metrics) == (Metrics { p2p_msg_get_blocks_inv_received: bumped(old(metrics).p2p_msg_get_blocks_inv_received), ..*old(metrics) }),
{
    metrics.p2p_msg_get_blocks_inv_received = metrics.p2p_msg_get_blocks_inv_received.wrapping_add(1);
}

/// Records one Nack message sent.
pub fn increment_p2p_msg_nack_sent_counter(metrics: &mut Metrics)
    ensures
        *final(metrics) == (Metrics { p2p_msg_nack_sent: bumped(old(metrics).p2p_msg_nack_sent), ..*old(metrics) }),
{
    metrics.p2p_msg_nack_sent = metrics.p2p_msg_nack_sent.wrapping_add(1);
}

/// Records one Ping message received.
pub fn increment_p2p_msg_ping_received_counter(metrics: &mut Metrics)
    ensures
        *final(metrics) == (Metrics { p2p_msg_ping_received: bumped(old(metrics).p2p_msg_ping_received), ..*old(metrics) }),
{
    metrics.p2p_msg_ping_received = metrics.p2p_msg_ping_received.wrapping_add(1);
}

/// Records one NAT punch request received.
pub fn increment_p2p_msg_nat_punch_request_received_counter(metrics: &mut Metrics)
    ensures
        *final(metrics) == (Metrics { p2p_msg_nat_punch_request_received: bumped(old(metrics).p2p_msg_nat_punch_request_received), ..*old(metrics) }),
{
    metrics.p2p_msg_nat_punch_request_received = metrics.p2p_msg_nat_punch_request_received.wrapping_add(1);
}

/// Records one Stacks block received.
pub fn increment_stx_blocks_received_counter(metrics: &mut Metrics)
    ensures
        *final(metrics) == (Metrics { stx_blocks_received: bumped(old(metrics).stx_blocks_received), ..*old(metrics) }),
{
    metrics.stx_blocks_received = metrics.stx_blocks_received.wrapping_add(1);
}

/// Records one Stacks microblock received.
pub fn increment_stx_micro_blocks_received_counter(metrics: &mut Metrics)
    ensures
        *final(metrics) == (Metrics { stx_micro_blocks_received: bumped(old(metrics).stx_micro_blocks_received), ..*old(metrics) }),
{
    metrics.stx_micro_blocks_received = metrics.stx_micro_blocks_received.wrapping_add(1);
}

/// Records one Stacks block served.
pub fn increment_stx_blocks_served_counter(metrics: &mut Metrics)
    ensures
        *final(metrics) == (Metrics { stx_blocks_served: bumped(old(metrics).stx_blocks_served), ..*old(metrics) }),
{
    metrics.stx_blocks_served = metrics.stx_blocks_served.wrapping_add(1);
}

/// Records one Stacks microblock served.
pub fn increment_stx_micro_blocks_served_counter(metrics: &mut Metrics)
    ensures
        *final(metrics) == (Metrics { stx_micro_blocks_served: bumped(old(metrics).stx_micro_blocks_served), ..*old(metrics) }),
{
    metrics.stx_micro_blocks_served = metrics.stx_micro_blocks_served.wrapping_add(1);
}

/// Records one confirmed Stacks microblock served.
pub fn increment_stx_confirmed_micro_blocks_served_counter(metrics: &mut Metrics)
    ensures
        *final(metrics) == (Metrics { stx_confirmed_micro_blocks_served: bumped(old(metrics).stx_confirmed_micro_blocks_served), ..*old(metrics) }),
{
    metrics.stx_confirmed_micro_blocks_served = metrics.stx_confirmed_micro_blocks_served.wrapping_add(1);
}

/// Records one transaction received.
pub fn increment_txs_received_counter(metrics: &mut Metrics)
    ensures
        *final(metrics) == (Metrics { txs_received: bumped(old(metrics).txs_received), ..*old(metrics) }),
{
    metrics.txs_received = metrics.txs_received.wrapping_add(1);
}

/// Records one Bitcoin block received.
pub fn increment_btc_blocks_received_counter(metrics: &mut Metrics)
    ensures
        *final(metrics) == (Metrics { btc_blocks_received: bumped(old(metrics).btc_blocks_received), ..*old(metrics) }),
{
    metrics.btc_blocks_received = metrics.btc_blocks_received.wrapping_add(1);
}

/// Records one Bitcoin operation sent.
pub fn increment_btc_ops_sent_counter(metrics: &mut Metrics)
    ensures
        *final(metrics) == (Metrics { btc_ops_sent: bumped(old(metrics).btc_ops_sent), ..*old(metrics) }),
{
    metrics.btc_ops_sent = metrics.btc_ops_sent.wrapping_add(1);
}

/// Records one Stacks block processed.
pub fn increment_stx_blocks_processed_counter(metrics: &mut Metrics)
    ensures
        *final(metrics) == (Metrics { stx_blocks_processed: bumped(old(metrics).stx_blocks_processed), ..*old(metrics) }),
{
    metrics.stx_blocks_processed = metrics.stx_blocks_processed.wrapping_add(1);
}

/// Records one Stacks block mined.
pub fn increment_stx_blocks_mined_counter(metrics: &mut Metrics)
    ensures
        *final(metrics) == (Metrics { stx_blocks_mined: bumped(old(metrics).stx_blocks_mined), ..*old(metrics) }),
{
    metrics.stx_blocks_mined = metrics.stx_blocks_mined.wrapping_add(1);
}

/// Records one warning emitted.
pub fn increment_warning_emitted_counter(metrics: &mut Metrics)
    ensures
        *final(metrics) == (Metrics { warning_emitted: bumped(old(metrics).warning_emitted), ..*old(metrics) }),
{
    metrics.warning_emitted = metrics.warning_emitted.wrapping_add(1);
}

/// Records one error emitted.
pub fn increment_errors_emitted_counter(metrics: &mut Metrics)
    ensures
        *final(metrics) == (Metrics { errors_emitted: bumped(old(metrics).errors_emitted), ..*old(metrics) }),
{
    metrics.errors_emitted = metrics.errors_emitted.wrapping_add(1);
}

/// Reports the number of miners currently active; the gauge holds the last
/// value reported.
pub fn update_active_miners_count_gauge(metrics: &mut Metrics, value: i64)
    ensures
        *final(metrics) == (Metrics { active_miners_count: value, ..*old(metrics) }),
{
    metrics.active_miners_count = value;
}

} // verus!
