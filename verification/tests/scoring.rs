//! End-to-end tests of the event scoring engine.

use goz_scoring::config::{GozScoringConfig, Team};
use goz_scoring::engine::GozScoringApp;
use goz_scoring::event::{Envelope, Event, InnerEvent, Message};
use goz_scoring::score::Score;

fn inner(pairs: &[(&str, &[&str])]) -> InnerEvent {
    let mut data: Vec<(String, Vec<String>)> = Vec::new();
    for (k, vs) in pairs {
        let mut vals: Vec<String> = Vec::new();
        for v in *vs {
            vals.push(String::from(*v));
        }
        data.push((String::from(*k), vals));
    }
    InnerEvent { data }
}

fn opaque_envelope(network: &str, pairs: &[(&str, &[&str])]) -> Envelope {
    Envelope {
        network: String::from(network),
        msg: vec![Message::EventIBC(Event::OpaquePacket(inner(pairs)))],
    }
}

fn transfer_envelope(network: &str, channels: &[&str]) -> Envelope {
    Envelope {
        network: String::from(network),
        msg: vec![Message::EventIBC(Event::PacketTransfer(inner(&[(
            "send_packet.packet_dst_channel",
            channels,
        )])))],
    }
}

fn engine(hubs: &[&str], teams: &[(&str, &str)]) -> GozScoringApp {
    let mut hub_id: Vec<String> = Vec::new();
    for h in hubs {
        hub_id.push(String::from(*h));
    }
    let mut team_list: Vec<Team> = Vec::new();
    for (address, name) in teams {
        team_list.push(Team { address: String::from(*address), name: String::from(*name) });
    }
    GozScoringApp::new(&GozScoringConfig { hub_id, teams: team_list })
}

fn score(app: &GozScoringApp, team: &str) -> Score {
    app.score_of(team).expect("team should have a score entry")
}

/// A complete opaque packet on the hub chain: one source channel, the
/// credited sender at index two of the sender list.
fn full_opaque(network: &str, hash: &str, sender: &str, channel: &str) -> Envelope {
    opaque_envelope(
        network,
        &[
            ("tx.hash", &[hash]),
            ("message.sender", &["relay-a", "relay-b", sender]),
            ("recv_packet.packet_src_channel", &[channel]),
        ],
    )
}

#[test]
fn hub_opaque_packet_scores_hub_counter() {
    let mut app = engine(&["hub-1"], &[("cosmos1teamx", "alphateam")]);
    app.score_envelope(full_opaque("hub-1", "HASH-A", "cosmos1teamx", "channel-7"));
    let sc = score(&app, "alphateam");
    assert_eq!(sc.hub_opaque_packets, 1);
    assert_eq!(sc.packets_from_hub, 0);
    assert_eq!(sc.opaque_packets_tx, 0);
    assert_eq!(sc.opaque_packets_total, 1);
}

#[test]
fn total_counts_all_source_channels() {
    let mut app = engine(&["hub-1"], &[("cosmos1teamx", "alphateam")]);
    // three source channels: the credited sender sits at index four
    app.score_envelope(opaque_envelope(
        "hub-1",
        &[
            ("tx.hash", &["HASH-A"]),
            ("message.sender", &["s0", "s1", "s2", "s3", "cosmos1teamx"]),
            ("recv_packet.packet_src_channel", &["c-1", "c-2", "c-3"]),
        ],
    ));
    let sc = score(&app, "alphateam");
    assert_eq!(sc.hub_opaque_packets, 1);
    assert_eq!(sc.opaque_packets_total, 3);
}

#[test]
fn dedup_same_envelope_twice_scores_once() {
    let mut app = engine(&["hub-1"], &[("cosmos1teamx", "alphateam")]);
    app.score_envelope(full_opaque("hub-1", "HASH-A", "cosmos1teamx", "channel-7"));
    let first = score(&app, "alphateam");
    app.score_envelope(full_opaque("hub-1", "HASH-A", "cosmos1teamx", "channel-7"));
    let second = score(&app, "alphateam");
    assert_eq!(first, second);
    assert_eq!(second.hub_opaque_packets, 1);
}

#[test]
fn distinct_hashes_score_separately() {
    let mut app = engine(&["hub-1"], &[("cosmos1teamx", "alphateam")]);
    app.score_envelope(full_opaque("hub-1", "HASH-A", "cosmos1teamx", "channel-7"));
    app.score_envelope(full_opaque("hub-1", "HASH-B", "cosmos1teamx", "channel-7"));
    assert_eq!(score(&app, "alphateam").hub_opaque_packets, 2);
}

#[test]
fn order_sensitivity_between_envelopes() {
    // before the teaching transfer: unknown channel, plain opaque packet
    let mut early = engine(&["hub-1"], &[("cosmos1teamx", "alphateam")]);
    early.score_envelope(full_opaque("zone-9", "HASH-A", "cosmos1teamx", "channel-3"));
    let sc = score(&early, "alphateam");
    assert_eq!(sc.opaque_packets_tx, 1);
    assert_eq!(sc.packets_from_hub, 0);

    // after the teaching transfer: the same packet counts as from the hub
    let mut late = engine(&["hub-1"], &[("cosmos1teamx", "alphateam")]);
    late.score_envelope(transfer_envelope("hub-1", &["channel-3"]));
    late.score_envelope(full_opaque("zone-9", "HASH-A", "cosmos1teamx", "channel-3"));
    let sc = score(&late, "alphateam");
    assert_eq!(sc.opaque_packets_tx, 0);
    assert_eq!(sc.packets_from_hub, 1);
}

#[test]
fn order_sensitivity_within_one_envelope() {
    let taught_first = Envelope {
        network: String::from("hub-1"),
        msg: vec![
            Message::EventIBC(Event::PacketTransfer(inner(&[(
                "send_packet.packet_dst_channel",
                &["channel-3"],
            )]))),
            Message::EventIBC(Event::OpaquePacket(inner(&[
                ("tx.hash", &["HASH-A"]),
                ("message.sender", &["r0", "r1", "cosmos1teamx"]),
                ("recv_packet.packet_src_channel", &["channel-3"]),
            ]))),
        ],
    };
    // the whole envelope is reported by the hub, so the opaque packet is
    // a hub packet regardless of channel learning
    let mut app = engine(&["hub-1"], &[("cosmos1teamx", "alphateam")]);
    app.score_envelope(taught_first);
    assert_eq!(score(&app, "alphateam").hub_opaque_packets, 1);
}

#[test]
fn transfer_on_non_hub_network_teaches_nothing() {
    let mut app = engine(&["hub-1"], &[("cosmos1teamx", "alphateam")]);
    app.score_envelope(transfer_envelope("zone-9", &["channel-3"]));
    app.score_envelope(full_opaque("zone-9", "HASH-A", "cosmos1teamx", "channel-3"));
    let sc = score(&app, "alphateam");
    assert_eq!(sc.opaque_packets_tx, 1);
    assert_eq!(sc.packets_from_hub, 0);
}

#[test]
fn missing_hash_changes_nothing() {
    let mut app = engine(&["hub-1"], &[("cosmos1teamx", "alphateam")]);
    app.score_envelope(opaque_envelope(
        "hub-1",
        &[
            ("message.sender", &["r0", "r1", "cosmos1teamx"]),
            ("recv_packet.packet_src_channel", &["channel-7"]),
        ],
    ));
    assert!(app.score_of("alphateam").is_none());
    assert!(app.snapshot().is_empty());
}

#[test]
fn empty_hash_list_changes_nothing() {
    let mut app = engine(&["hub-1"], &[("cosmos1teamx", "alphateam")]);
    app.score_envelope(opaque_envelope(
        "hub-1",
        &[
            ("tx.hash", &[]),
            ("message.sender", &["r0", "r1", "cosmos1teamx"]),
            ("recv_packet.packet_src_channel", &["channel-7"]),
        ],
    ));
    assert!(app.snapshot().is_empty());
}

#[test]
fn hash_is_spent_even_when_attribution_fails() {
    let mut app = engine(&["hub-1"], &[("cosmos1teamx", "alphateam")]);
    // no sender list: nothing scored, but the hash is consumed
    app.score_envelope(opaque_envelope(
        "hub-1",
        &[("tx.hash", &["HASH-A"]), ("recv_packet.packet_src_channel", &["channel-7"])],
    ));
    assert!(app.score_of("alphateam").is_none());
    // the same hash with full data no longer scores
    app.score_envelope(full_opaque("hub-1", "HASH-A", "cosmos1teamx", "channel-7"));
    assert!(app.score_of("alphateam").is_none());
}

#[test]
fn out_of_range_sender_index_scores_nothing() {
    let mut app = engine(&["hub-1"], &[("cosmos1teamx", "alphateam")]);
    // one source channel wants the sender at index two, but only two
    // senders are present
    app.score_envelope(opaque_envelope(
        "hub-1",
        &[
            ("tx.hash", &["HASH-A"]),
            ("message.sender", &["r0", "cosmos1teamx"]),
            ("recv_packet.packet_src_channel", &["channel-7"]),
        ],
    ));
    assert!(app.snapshot().is_empty());
}

#[test]
fn empty_channel_list_creates_entry_without_credit() {
    let mut app = engine(&["hub-1"], &[("cosmos1teamx", "alphateam")]);
    // an empty source-channel list selects the sender at index one; the
    // team entry is created but no counter moves
    app.score_envelope(opaque_envelope(
        "hub-1",
        &[
            ("tx.hash", &["HASH-A"]),
            ("message.sender", &["r0", "cosmos1teamx"]),
            ("recv_packet.packet_src_channel", &[]),
        ],
    ));
    let sc = score(&app, "alphateam");
    assert_eq!(sc, Score::default());
}

#[test]
fn unknown_sender_scores_nothing() {
    let mut app = engine(&["hub-1"], &[("cosmos1teamx", "alphateam")]);
    app.score_envelope(full_opaque("hub-1", "HASH-A", "cosmos1nobody", "channel-7"));
    assert!(app.snapshot().is_empty());
}

#[test]
fn second_hub_identifier_counts_as_hub() {
    let mut app = engine(&["hub-1", "hub-2"], &[("cosmos1teamx", "alphateam")]);
    app.score_envelope(full_opaque("hub-2", "HASH-A", "cosmos1teamx", "channel-7"));
    assert_eq!(score(&app, "alphateam").hub_opaque_packets, 1);
}

#[test]
fn other_messages_and_events_are_ignored() {
    let mut app = engine(&["hub-1"], &[("cosmos1teamx", "alphateam")]);
    app.score_envelope(Envelope {
        network: String::from("hub-1"),
        msg: vec![Message::Other, Message::EventIBC(Event::Other)],
    });
    assert!(app.snapshot().is_empty());
}

#[test]
fn snapshot_lists_each_team_once() {
    let mut app = engine(
        &["hub-1"],
        &[("cosmos1teamx", "alphateam"), ("cosmos1teamy", "betateam")],
    );
    app.score_envelope(full_opaque("hub-1", "HASH-A", "cosmos1teamx", "channel-7"));
    app.score_envelope(full_opaque("hub-1", "HASH-B", "cosmos1teamy", "channel-7"));
    app.score_envelope(full_opaque("hub-1", "HASH-C", "cosmos1teamy", "channel-7"));
    let snap = app.snapshot();
    assert_eq!(snap.len(), 2);
    assert_eq!(snap[0].0, "alphateam");
    assert_eq!(snap[0].1.hub_opaque_packets, 1);
    assert_eq!(snap[1].0, "betateam");
    assert_eq!(snap[1].1.hub_opaque_packets, 2);
}

#[test]
fn duplicate_roster_address_last_write_wins() {
    let mut app = engine(
        &["hub-1"],
        &[("cosmos1teamx", "alphateam"), ("cosmos1teamx", "betateam")],
    );
    app.score_envelope(full_opaque("hub-1", "HASH-A", "cosmos1teamx", "channel-7"));
    assert!(app.score_of("alphateam").is_none());
    assert_eq!(score(&app, "betateam").hub_opaque_packets, 1);
}
