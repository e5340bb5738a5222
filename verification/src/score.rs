//! Per-team score counters and the weighted-total formula.

use vstd::prelude::*;

verus! {

/// Counters accumulated for one team over a run.
///
/// All counters start at zero and only grow. The weighted competition
/// score is `hub_opaque_packets * 1.0 + packets_from_hub * 0.5 +
/// opaque_packets_tx * 0.1`; to stay in integer arithmetic the library
/// reports it in tenths of a point.
#[derive(Clone, Copy, Debug, PartialEq, Eq, Structural)]
pub struct Score {
    /// Opaque packets relayed directly on a hub chain.
    pub hub_opaque_packets: u64,
    /// Opaque packets whose source channel is not known to come from the hub.
    pub opaque_packets_tx: u64,
    /// Opaque packets arriving through a channel learned to originate
    /// from the hub.
    pub packets_from_hub: u64,
    /// Total source-channel count over all credited packets, a proxy for
    /// the number of sub-packets in multi-message relays.
    pub opaque_packets_total: u64,
}

impl Default for Score {
    /// The all-zero score a team starts with.
    fn default() -> (r: Self)
        ensures
            r == Score::zero(),
    {
        Self { hub_opaque_packets: 0, opaque_packets_tx: 0, packets_from_hub: 0, opaque_packets_total: 0 }
    }
}

impl Score {
    /// The all-zero score.
    pub open spec fn zero() -> Score {
        Score { hub_opaque_packets: 0, opaque_packets_tx: 0, packets_from_hub: 0, opaque_packets_total: 0 }
    }

    /// The weighted total in tenths of a point:
    /// ten per hub packet, five per packet from the hub, one per other
    /// opaque packet.
    pub open spec fn spec_weighted_total_tenths(self) -> int {
        10 * self.hub_opaque_packets + 5 * self.packets_from_hub + self.opaque_packets_tx
    }

    /// Computes the weighted total in tenths of a point.
    pub fn weighted_total_tenths(&self) -> (r: u128)
        ensures
            r == self.spec_weighted_total_tenths(),
    {
        10 * (self.hub_opaque_packets as u128) + 5 * (self.packets_from_hub as u128)
            + (self.opaque_packets_tx as u128)
    }
}

} // verus!
