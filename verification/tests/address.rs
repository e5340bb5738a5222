//! Tests of address normalization, bech32 resolution, and the score
//! formula.

use goz_scoring::config::{GozScoringConfig, Team};
use goz_scoring::engine::GozScoringApp;
use goz_scoring::score::Score;

fn engine(hubs: &[&str], teams: &[(&str, &str)]) -> GozScoringApp {
    let mut hub_id: Vec<String> = Vec::new();
    for h in hubs {
        hub_id.push(String::from(*h));
    }
    let mut team_list: Vec<Team> = Vec::new();
    for (address, name) in teams {
        team_list.push(Team { address: String::from(*address), name: String::from(*name) });
    }
    GozScoringApp::new(&GozScoringConfig { hub_id, teams: team_list })
}

#[test]
fn weighted_total_formula() {
    let sc = Score {
        hub_opaque_packets: 2,
        opaque_packets_tx: 3,
        packets_from_hub: 1,
        opaque_packets_total: 6,
    };
    // 2 * 1.0 + 1 * 0.5 + 3 * 0.1 = 2.8 points, reported in tenths
    assert_eq!(sc.weighted_total_tenths(), 28);
}

#[test]
fn default_score_is_zero() {
    let sc = Score::default();
    assert_eq!(sc.hub_opaque_packets, 0);
    assert_eq!(sc.opaque_packets_tx, 0);
    assert_eq!(sc.packets_from_hub, 0);
    assert_eq!(sc.opaque_packets_total, 0);
    assert_eq!(sc.weighted_total_tenths(), 0);
}

#[test]
fn direct_lookup_with_cosmos_prefix() {
    let app = engine(&[], &[("cosmos1teamx", "alphateam")]);
    assert_eq!(app.get_team_by_address("cosmos1teamx"), Some(String::from("alphateam")));
    assert_eq!(app.get_team_by_address("cosmos1other"), None);
}

#[test]
fn roster_address_is_lowercased() {
    let app = engine(&[], &[("COSMOS1TEAMX", "alphateam")]);
    assert_eq!(app.get_team_by_address("cosmos1teamx"), Some(String::from("alphateam")));
}

#[test]
fn roster_address_spaces_become_underscores() {
    let app = engine(&[], &[("cosmos1team x", "alphateam")]);
    assert_eq!(app.get_team_by_address("cosmos1team_x"), Some(String::from("alphateam")));
}

#[test]
fn prefix_found_in_the_middle_of_an_address() {
    let app = engine(&[], &[("relay-cosmos1teamx", "alphateam")]);
    assert_eq!(
        app.get_team_by_address("relay-cosmos1teamx"),
        Some(String::from("alphateam"))
    );
}

#[test]
fn foreign_prefix_round_trip() {
    // a roster keyed by the cosmos encoding of a payload matches an
    // incoming address that encodes the same payload under another
    // human-readable prefix
    let payload: Vec<u8> = vec![7, 1, 19, 88, 200, 13, 0, 42, 5, 99];
    let cosmos_address = subtle_encoding::bech32::encode("cosmos", &payload);
    let foreign_address = subtle_encoding::bech32::encode("osmo", &payload);
    assert!(!foreign_address.contains("cosmos1"));

    let app = engine(&[], &[(cosmos_address.as_str(), "alphateam")]);
    assert_eq!(
        app.get_team_by_address(foreign_address.as_str()),
        Some(String::from("alphateam"))
    );
}

#[test]
fn foreign_prefix_with_unknown_payload_misses() {
    let payload: Vec<u8> = vec![7, 1, 19, 88, 200, 13, 0, 42, 5, 99];
    let other_payload: Vec<u8> = vec![1, 2, 3, 4];
    let cosmos_address = subtle_encoding::bech32::encode("cosmos", &payload);
    let foreign_address = subtle_encoding::bech32::encode("osmo", &other_payload);

    let app = engine(&[], &[(cosmos_address.as_str(), "alphateam")]);
    assert_eq!(app.get_team_by_address(foreign_address.as_str()), None);
}

#[test]
fn malformed_addresses_resolve_to_nothing() {
    let app = engine(&[], &[("cosmos1teamx", "alphateam")]);
    // no separator at all
    assert_eq!(app.get_team_by_address("noseparator"), None);
    // separator but a corrupted checksum
    let payload: Vec<u8> = vec![7, 1, 19, 88];
    let mut corrupted = subtle_encoding::bech32::encode("osmo", &payload);
    let last = corrupted.pop().unwrap();
    corrupted.push(if last == 'q' { 'p' } else { 'q' });
    assert_eq!(app.get_team_by_address(corrupted.as_str()), None);
    // empty string
    assert_eq!(app.get_team_by_address(""), None);
}
