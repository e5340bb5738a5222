//! Laws of the scoring engine, proved over the spec-level transition
//! that `score_envelope` is verified to implement: dedup idempotence,
//! monotonic channel learning, exhaustive and exclusive classification,
//! address round-trip, order sensitivity, and missing-data tolerance.

use vstd::prelude::*;

use crate::bech32::{bech32_decode, bech32_encode};
use crate::engine::{
    resolve_spec, step_message, step_messages, step_opaque, step_transfer, StateV,
};
use crate::event::{Event, InnerEvent, Message};
use crate::score::Score;
use crate::text::spec_contains_seq;

verus! {

/// The opaque packet carries a transaction hash that has not been
/// observed yet.
pub open spec fn opaque_fresh(s: StateV, ev: InnerEvent) -> bool {
    match ev.lookup("tx.hash"@) {
        Some(hashes) => hashes.len() > 0 && !s.observed_transactions.contains(hashes[0]),
        None => false,
    }
}

/// The first transaction hash the opaque packet carries.
pub open spec fn hash_of(ev: InnerEvent) -> Seq<char> {
    match ev.lookup("tx.hash"@) {
        Some(hashes) => hashes[0],
        None => Seq::empty(),
    }
}

/// The source channels named by an opaque packet.
pub open spec fn src_channels_of(ev: InnerEvent) -> Seq<Seq<char>> {
    match ev.lookup("recv_packet.packet_src_channel"@) {
        Some(chans) => chans,
        None => Seq::empty(),
    }
}

/// The sender address an opaque packet is attributed by: the entry of
/// the sender list at index source-channel-count plus one.
pub open spec fn sender_of(ev: InnerEvent) -> Seq<char> {
    match ev.lookup("message.sender"@) {
        Some(senders) => senders[src_channels_of(ev).len() + 1 as int],
        None => Seq::empty(),
    }
}

/// The destination channels a packet-transfer event teaches.
pub open spec fn taught_channels(ev: InnerEvent) -> Set<Seq<char>> {
    match ev.lookup("send_packet.packet_dst_channel"@) {
        Some(chans) => chans.to_set(),
        None => Set::empty(),
    }
}

/// Attribution of the opaque packet succeeds: sender list and source
/// channels present, the sender index in range, the source-channel list
/// non-empty, and the sender address resolving to a team.
pub open spec fn attribution_succeeds(roster: Map<Seq<char>, Seq<char>>, ev: InnerEvent) -> bool {
    match ev.lookup("message.sender"@) {
        None => false,
        Some(senders) => match ev.lookup("recv_packet.packet_src_channel"@) {
            None => false,
            Some(chans) => {
                &&& chans.len() > 0
                &&& chans.len() + 1 < senders.len()
                &&& resolve_spec(roster, senders[chans.len() + 1 as int]) is Some
            },
        },
    }
}

/// The team an opaque packet is attributed to, when attribution
/// succeeds.
pub open spec fn attributed_team(roster: Map<Seq<char>, Seq<char>>, ev: InnerEvent) -> Seq<char> {
    match resolve_spec(roster, sender_of(ev)) {
        Some(team) => team,
        None => Seq::empty(),
    }
}

/// Every effect the message could have is already contained in the
/// state: its transaction hash is observed, its taught channels are
/// learned.
pub open spec fn absorbed(hubs: Set<Seq<char>>, s: StateV, network: Seq<char>, m: Message) -> bool {
    match m {
        Message::EventIBC(Event::OpaquePacket(ev)) => !opaque_fresh(s, ev),
        Message::EventIBC(Event::PacketTransfer(ev)) => hubs.contains(network)
            ==> taught_channels(ev).subset_of(s.source_channels),
        _ => true,
    }
}

/// One message only grows the observed-transaction and source-channel
/// sets, and leaves every score it does not credit in place.
pub proof fn lemma_step_message_monotone(
    roster: Map<Seq<char>, Seq<char>>,
    hubs: Set<Seq<char>>,
    s: StateV,
    network: Seq<char>,
    m: Message,
)
    ensures
        s.observed_transactions.subset_of(
            step_message(roster, hubs, s, network, m).observed_transactions,
        ),
        s.source_channels.subset_of(step_message(roster, hubs, s, network, m).source_channels),
{
}

/// Monotonic channel learning: a channel once learned is never removed
/// by any later sequence of messages, and an observed transaction hash
/// stays observed. Classification of a channel can only move from
/// unknown to known hub-sourced, never back.
pub proof fn lemma_monotonic_learning(
    roster: Map<Seq<char>, Seq<char>>,
    hubs: Set<Seq<char>>,
    s: StateV,
    network: Seq<char>,
    msgs: Seq<Message>,
)
    ensures
        s.source_channels.subset_of(
            step_messages(roster, hubs, s, network, msgs).source_channels,
        ),
        s.observed_transactions.subset_of(
            step_messages(roster, hubs, s, network, msgs).observed_transactions,
        ),
    decreases msgs.len(),
{
    if msgs.len() > 0 {
        lemma_monotonic_learning(roster, hubs, s, network, msgs.drop_last());
        lemma_step_message_monotone(
            roster,
            hubs,
            step_messages(roster, hubs, s, network, msgs.drop_last()),
            network,
            msgs.last(),
        );
    }
}

/// A message all of whose effects the state already contains leaves the
/// state exactly as it is.
proof fn lemma_absorbed_noop(
    roster: Map<Seq<char>, Seq<char>>,
    hubs: Set<Seq<char>>,
    s: StateV,
    network: Seq<char>,
    m: Message,
)
    requires
        absorbed(hubs, s, network, m),
    ensures
        step_message(roster, hubs, s, network, m) == s,
{
    match m {
        Message::EventIBC(Event::PacketTransfer(ev)) => {
            if hubs.contains(network) {
                match ev.lookup("send_packet.packet_dst_channel"@) {
                    Some(chans) => {
                        assert(s.source_channels.union(chans.to_set()) =~= s.source_channels);
                        assert(step_transfer(hubs, s, network, ev) =~= s);
                    },
                    None => {},
                }
            }
        },
        _ => {},
    }
}

/// Absorption carries over to any state whose observed and learned sets
/// are at least as large.
proof fn lemma_absorbed_monotone(
    hubs: Set<Seq<char>>,
    s: StateV,
    t: StateV,
    network: Seq<char>,
    m: Message,
)
    requires
        absorbed(hubs, s, network, m),
        s.observed_transactions.subset_of(t.observed_transactions),
        s.source_channels.subset_of(t.source_channels),
    ensures
        absorbed(hubs, t, network, m),
{
}

/// After a message is processed, its effects are contained in the
/// resulting state.
proof fn lemma_absorbed_after(
    roster: Map<Seq<char>, Seq<char>>,
    hubs: Set<Seq<char>>,
    s: StateV,
    network: Seq<char>,
    m: Message,
)
    ensures
        absorbed(hubs, step_message(roster, hubs, s, network, m), network, m),
{
}

/// After a sequence of messages is processed, every one of its messages
/// is absorbed by the resulting state.
proof fn lemma_all_absorbed(
    roster: Map<Seq<char>, Seq<char>>,
    hubs: Set<Seq<char>>,
    s: StateV,
    network: Seq<char>,
    msgs: Seq<Message>,
)
    ensures
        forall|i: int|
            0 <= i < msgs.len() ==> absorbed(
                hubs,
                step_messages(roster, hubs, s, network, msgs),
                network,
                #[trigger] msgs[i],
            ),
    decreases msgs.len(),
{
    if msgs.len() > 0 {
        let prev = step_messages(roster, hubs, s, network, msgs.drop_last());
        let fin = step_messages(roster, hubs, s, network, msgs);
        lemma_all_absorbed(roster, hubs, s, network, msgs.drop_last());
        lemma_step_message_monotone(roster, hubs, prev, network, msgs.last());
        assert forall|i: int| 0 <= i < msgs.len() implies absorbed(
            hubs,
            fin,
            network,
            #[trigger] msgs[i],
        ) by {
            if i < msgs.len() - 1 {
                assert(msgs.drop_last()[i] == msgs[i]);
                lemma_absorbed_monotone(hubs, prev, fin, network, msgs[i]);
            } else {
                lemma_absorbed_after(roster, hubs, prev, network, msgs.last());
            }
        };
    }
}

/// A sequence of messages all of whose effects the state already
/// contains leaves the state exactly as it is.
proof fn lemma_all_absorbed_noop(
    roster: Map<Seq<char>, Seq<char>>,
    hubs: Set<Seq<char>>,
    s: StateV,
    network: Seq<char>,
    msgs: Seq<Message>,
)
    requires
        forall|i: int| 0 <= i < msgs.len() ==> absorbed(hubs, s, network, #[trigger] msgs[i]),
    ensures
        step_messages(roster, hubs, s, network, msgs) == s,
    decreases msgs.len(),
{
    if msgs.len() > 0 {
        assert forall|i: int| 0 <= i < msgs.drop_last().len() implies absorbed(
            hubs,
            s,
            network,
            #[trigger] msgs.drop_last()[i],
        ) by {
            assert(msgs.drop_last()[i] == msgs[i]);
        };
        lemma_all_absorbed_noop(roster, hubs, s, network, msgs.drop_last());
        lemma_absorbed_noop(roster, hubs, s, network, msgs.last());
    }
}

/// Dedup idempotence: observing the very same envelope again, right
/// after it was observed, changes nothing at all — in particular the
/// scores after the second observation equal the scores after the
/// first.
pub proof fn lemma_dedup_idempotent(
    roster: Map<Seq<char>, Seq<char>>,
    hubs: Set<Seq<char>>,
    s: StateV,
    network: Seq<char>,
    msgs: Seq<Message>,
)
    ensures
        step_messages(
            roster,
            hubs,
            step_messages(roster, hubs, s, network, msgs),
            network,
            msgs,
        ) == step_messages(roster, hubs, s, network, msgs),
{
    let s1 = step_messages(roster, hubs, s, network, msgs);
    lemma_all_absorbed(roster, hubs, s, network, msgs);
    lemma_all_absorbed_noop(roster, hubs, s1, network, msgs);
}

/// Missing-data tolerance: an opaque packet without a transaction hash
/// leaves the state unchanged.
pub proof fn lemma_missing_hash_noop(
    roster: Map<Seq<char>, Seq<char>>,
    hubs: Set<Seq<char>>,
    s: StateV,
    network: Seq<char>,
    ev: InnerEvent,
)
    requires
        ev.lookup("tx.hash"@) is None,
    ensures
        step_opaque(roster, hubs, s, network, ev) == s,
{
}

/// Address round-trip: an address that decodes to some payload under a
/// foreign bech32 prefix finds the roster entry keyed by the `cosmos`
/// re-encoding of that same payload.
pub proof fn lemma_address_round_trip(
    roster: Map<Seq<char>, Seq<char>>,
    addr: Seq<char>,
    hrp: Seq<char>,
    payload: Seq<u8>,
    team: Seq<char>,
)
    requires
        !spec_contains_seq(addr, "cosmos1"@),
        bech32_decode(addr) == Some((hrp, payload)),
        roster.contains_key(bech32_encode("cosmos"@, payload)),
        roster[bech32_encode("cosmos"@, payload)] == team,
    ensures
        resolve_spec(roster, addr) == Some(team),
{
}

/// Exhaustive, exclusive classification: a fresh, successfully
/// attributed opaque packet bumps exactly one of the three
/// classification counters of the attributed team by exactly one, adds
/// the source-channel count to that team's total, leaves every other
/// team's score in place, and marks exactly its hash observed. Counters
/// already at the 64-bit maximum are excluded: there the counters
/// saturate instead.
pub proof fn lemma_classification(
    roster: Map<Seq<char>, Seq<char>>,
    hubs: Set<Seq<char>>,
    s: StateV,
    network: Seq<char>,
    ev: InnerEvent,
)
    requires
        opaque_fresh(s, ev),
        attribution_succeeds(roster, ev),
        ({
            let team = attributed_team(roster, ev);
            let base = if s.scores.contains_key(team) {
                s.scores[team]
            } else {
                Score::zero()
            };
            &&& base.hub_opaque_packets < u64::MAX
            &&& base.packets_from_hub < u64::MAX
            &&& base.opaque_packets_tx < u64::MAX
            &&& base.opaque_packets_total + src_channels_of(ev).len() <= u64::MAX
        }),
    ensures
        ({
            let t = step_opaque(roster, hubs, s, network, ev);
            let team = attributed_team(roster, ev);
            let base = if s.scores.contains_key(team) {
                s.scores[team]
            } else {
                Score::zero()
            };
            let after = t.scores[team];
            &&& t.scores.contains_key(team)
            &&& {
                ||| (after.hub_opaque_packets == base.hub_opaque_packets + 1
                    && after.packets_from_hub == base.packets_from_hub
                    && after.opaque_packets_tx == base.opaque_packets_tx)
                ||| (after.hub_opaque_packets == base.hub_opaque_packets
                    && after.packets_from_hub == base.packets_from_hub + 1
                    && after.opaque_packets_tx == base.opaque_packets_tx)
                ||| (after.hub_opaque_packets == base.hub_opaque_packets
                    && after.packets_from_hub == base.packets_from_hub
                    && after.opaque_packets_tx == base.opaque_packets_tx + 1)
            }
            &&& after.opaque_packets_total == base.opaque_packets_total + src_channels_of(
                ev,
            ).len()
            &&& t.scores.remove(team) == s.scores.remove(team)
            &&& t.source_channels == s.source_channels
            &&& t.observed_transactions == s.observed_transactions.insert(hash_of(ev))
        }),
{
    let t = step_opaque(roster, hubs, s, network, ev);
    let team = attributed_team(roster, ev);
    assert(t.scores.remove(team) =~= s.scores.remove(team));
}

/// Order sensitivity: an opaque packet referencing a channel that a
/// hub-reported packet transfer teaches classifies as a plain opaque
/// packet when observed before the teaching event, and as a packet from
/// the hub when observed after it.
pub proof fn lemma_order_sensitivity(
    roster: Map<Seq<char>, Seq<char>>,
    hubs: Set<Seq<char>>,
    s: StateV,
    network_op: Seq<char>,
    ev_op: InnerEvent,
    network_tr: Seq<char>,
    ev_tr: InnerEvent,
)
    requires
        opaque_fresh(s, ev_op),
        attribution_succeeds(roster, ev_op),
        !hubs.contains(network_op),
        hubs.contains(network_tr),
        taught_channels(ev_tr).contains(src_channels_of(ev_op)[0]),
        !s.source_channels.contains(src_channels_of(ev_op)[0]),
        ({
            let team = attributed_team(roster, ev_op);
            let base = if s.scores.contains_key(team) {
                s.scores[team]
            } else {
                Score::zero()
            };
            &&& base.packets_from_hub < u64::MAX
            &&& base.opaque_packets_tx < u64::MAX
        }),
    ensures
        ({
            let team = attributed_team(roster, ev_op);
            let base = if s.scores.contains_key(team) {
                s.scores[team]
            } else {
                Score::zero()
            };
            let before = step_opaque(roster, hubs, s, network_op, ev_op);
            let taught = step_transfer(hubs, s, network_tr, ev_tr);
            let after = step_opaque(roster, hubs, taught, network_op, ev_op);
            &&& before.scores[team].opaque_packets_tx == base.opaque_packets_tx + 1
            &&& before.scores[team].packets_from_hub == base.packets_from_hub
            &&& after.scores[team].packets_from_hub == base.packets_from_hub + 1
            &&& after.scores[team].opaque_packets_tx == base.opaque_packets_tx
        }),
{
}

} // verus!
